//! The grammar of the concrete syntax.
//!
//! ```text
//! exp      ::= lambda | rec | case | apply | operand
//! lambda   ::= ("\" | "λ" | "𝜆") variable "." exp
//! rec      ::= "rec" variable "=" exp
//! case     ::= "case" exp "of"? "{" (branch (";" branch)*)? ";"? "}"
//! branch   ::= constructor "(" (variable ("," variable)*)? ")" ("->" | "→") exp
//! apply    ::= operand operand operand*
//! operand  ::= variable | constructor "(" (exp ("," exp)*)? ")" | "(" exp ")" | case
//! ```
//!
//! The alternatives are tried in the order given and the first that fits is
//! taken; a list takes as many members as fit. Blanks may stand before
//! every word but the first of an alternative. The scrutinee of a case
//! expression is the text up to the brace that opens its branches, found by
//! counting the words `case` and the closing braces in between; it is read on
//! its own, without white space around it and without the words `of` at its
//! end, and must be a term as a whole.

use crate::syntax::lexical::{
    char_at, constructor_at, in_bounds, is_white, lemma_name_end, lemma_skip_spaces, skip_spaces,
    tag_at, variable_at,
};
use crate::syntax::{Arm, Term};
use vstd::prelude::*;

verus! {

/// A sign that begins an abstraction: `\`, `λ` or `𝜆`.
pub open spec fn is_lambda_sign(c: char) -> bool {
    c == '\\' || c == '\u{3bb}' || c == '\u{1d706}'
}

/// The position after the arrow of a branch that stands at `at`: `->` or
/// `→`.
pub open spec fn arrow_at(text: Seq<char>, at: int, end: int) -> Option<int> {
    if tag_at(text, at, end, "->"@) {
        Some(at + "->"@.len())
    } else if char_at(text, at, end, '\u{2192}') {
        Some(at + 1)
    } else {
        None
    }
}

/// The names of variables from `at` on, with `,` between them, after the
/// names in `found`: as many as fit, and the position after the last.
pub open spec fn more_names(text: Seq<char>, at: int, end: int, found: Seq<Seq<char>>) -> (
    Seq<Seq<char>>,
    int,
)
    decreases end - at,
    when in_bounds(text, at, end)
{
    let comma = skip_spaces(text, at, end);
    if char_at(text, comma, end, ',') {
        match variable_at(text, skip_spaces(text, comma + 1, end), end) {
            Some((name, next)) => {
                proof {
                    lemma_skip_spaces(text, at, end);
                    lemma_skip_spaces(text, comma + 1, end);
                    lemma_name_end(text, skip_spaces(text, comma + 1, end) + 1, end);
                }
                more_names(text, next, end, found.push(name))
            },
            None => (found, at),
        }
    } else {
        (found, at)
    }
}

/// A list of names of variables at `at`, with `,` between them.
pub open spec fn names_at(text: Seq<char>, at: int, end: int) -> (Seq<Seq<char>>, int) {
    match variable_at(text, skip_spaces(text, at, end), end) {
        Some((name, next)) => more_names(text, next, end, seq![name]),
        None => (Seq::empty(), at),
    }
}

/// A list of names ends at or after its start, within the text.
pub proof fn lemma_more_names(text: Seq<char>, at: int, end: int, found: Seq<Seq<char>>)
    requires
        in_bounds(text, at, end),
    ensures
        at <= more_names(text, at, end, found).1 <= end,
    decreases end - at,
{
    let comma = skip_spaces(text, at, end);
    lemma_skip_spaces(text, at, end);
    if char_at(text, comma, end, ',') {
        lemma_skip_spaces(text, comma + 1, end);
        match variable_at(text, skip_spaces(text, comma + 1, end), end) {
            Some((name, next)) => {
                lemma_name_end(text, skip_spaces(text, comma + 1, end) + 1, end);
                lemma_more_names(text, next, end, found.push(name));
            },
            None => {},
        }
    }
}

/// A list of names ends at or after its start, within the text.
pub proof fn lemma_names_at(text: Seq<char>, at: int, end: int)
    requires
        in_bounds(text, at, end),
    ensures
        at <= names_at(text, at, end).1 <= end,
{
    lemma_skip_spaces(text, at, end);
    match variable_at(text, skip_spaces(text, at, end), end) {
        Some((name, next)) => {
            lemma_name_end(text, skip_spaces(text, at, end) + 1, end);
            lemma_more_names(text, next, end, seq![name]);
        },
        None => {},
    }
}

/// The position of the brace that opens the branches of a case expression
/// whose scrutinee begins at or before `at`, where `open` words `case` were
/// passed whose branches have not been closed.
pub open spec fn opening_brace(text: Seq<char>, at: int, end: int, open: nat) -> Option<int>
    decreases end - at,
{
    if !(0 <= at < end <= text.len()) {
        None
    } else if text[at] == 'c' {
        opening_brace(
            text,
            at + 1,
            end,
            if tag_at(text, at, end, "case"@) {
                open + 1
            } else {
                open
            },
        )
    } else if text[at] == '{' {
        if open == 0 {
            Some(at)
        } else {
            opening_brace(text, at + 1, end, open)
        }
    } else if text[at] == '}' {
        if open == 0 {
            None
        } else {
            opening_brace(text, at + 1, end, (open - 1) as nat)
        }
    } else {
        opening_brace(text, at + 1, end, open)
    }
}

/// The position of the first character at or after `at` that is no white
/// space.
pub open spec fn trim_start(text: Seq<char>, at: int, end: int) -> int
    decreases end - at,
{
    if 0 <= at < end <= text.len() && is_white(text[at]) {
        trim_start(text, at + 1, end)
    } else {
        at
    }
}

/// The position after the last character before `end` that is no white
/// space.
pub open spec fn trim_end(text: Seq<char>, at: int, end: int) -> int
    decreases end - at,
{
    if 0 <= at < end <= text.len() && is_white(text[end - 1]) {
        trim_end(text, at, end - 1)
    } else {
        end
    }
}

/// The position before the words `of` that end the text.
pub open spec fn before_of(text: Seq<char>, at: int, end: int) -> int
    decreases end - at,
{
    if 0 <= at && at + 2 <= end <= text.len() && text[end - 2] == 'o' && text[end - 1] == 'f' {
        before_of(text, at, end - 2)
    } else {
        end
    }
}

/// The end of the scrutinee that stands between `at` and `end`.
pub open spec fn scrutinee_end(text: Seq<char>, at: int, end: int) -> int {
    trim_end(text, at, before_of(text, at, trim_end(text, at, end)))
}

/// Whether only white space stands between `at` and `end`.
pub open spec fn all_white(text: Seq<char>, at: int, end: int) -> bool {
    forall|i: int| at <= i < end ==> is_white(#[trigger] text[i])
}

/// The first of two results that is one.
pub open spec fn or<T>(first: Option<T>, second: Option<T>) -> Option<T> {
    if first is Some {
        first
    } else {
        second
    }
}

/// A term at `at`, and the position after it.
pub open spec fn exp_at(text: Seq<char>, at: int, end: int) -> Option<(Term, int)>
    decreases end - at, 3nat,
    when in_bounds(text, at, end)
{
    or(
        lambda_at(text, at, end),
        or(
            rec_at(text, at, end),
            or(case_at(text, at, end), or(apply_at(text, at, end), operand_at(text, at, end))),
        ),
    )
}

/// An abstraction at `at`.
pub open spec fn lambda_at(text: Seq<char>, at: int, end: int) -> Option<(Term, int)>
    decreases end - at, 0nat,
    when in_bounds(text, at, end)
{
    if at < end && is_lambda_sign(text[at]) {
        match variable_at(text, skip_spaces(text, at + 1, end), end) {
            Some((name, next)) => {
                let dot = skip_spaces(text, next, end);
                if char_at(text, dot, end, '.') {
                    proof {
                        lemma_skip_spaces(text, at + 1, end);
                        lemma_name_end(text, skip_spaces(text, at + 1, end) + 1, end);
                        lemma_skip_spaces(text, next, end);
                        lemma_skip_spaces(text, dot + 1, end);
                    }
                    match exp_at(text, skip_spaces(text, dot + 1, end), end) {
                        Some((body, after)) => Some((Term::Lambda(name, Box::new(body)), after)),
                        None => None,
                    }
                } else {
                    None
                }
            },
            None => None,
        }
    } else {
        None
    }
}

/// A recursive binding at `at`.
pub open spec fn rec_at(text: Seq<char>, at: int, end: int) -> Option<(Term, int)>
    decreases end - at, 0nat,
    when in_bounds(text, at, end)
{
    if tag_at(text, at, end, "rec"@) {
        match variable_at(text, skip_spaces(text, at + "rec"@.len(), end), end) {
            Some((name, next)) => {
                let sign = skip_spaces(text, next, end);
                if char_at(text, sign, end, '=') {
                    proof {
                        lemma_skip_spaces(text, at + "rec"@.len(), end);
                        lemma_name_end(text, skip_spaces(text, at + "rec"@.len(), end) + 1, end);
                        lemma_skip_spaces(text, next, end);
                        lemma_skip_spaces(text, sign + 1, end);
                    }
                    match exp_at(text, skip_spaces(text, sign + 1, end), end) {
                        Some((body, after)) => Some((Term::Rec(name, Box::new(body)), after)),
                        None => None,
                    }
                } else {
                    None
                }
            },
            None => None,
        }
    } else {
        None
    }
}

/// A case expression at `at`.
pub open spec fn case_at(text: Seq<char>, at: int, end: int) -> Option<(Term, int)>
    decreases end - at, 0nat,
    when in_bounds(text, at, end)
{
    if tag_at(text, at, end, "case"@) {
        let from = at + "case"@.len();
        match opening_brace(text, from, end, 0) {
            Some(brace) => {
                let start = trim_start(text, from, brace);
                let stop = scrutinee_end(text, start, brace);
                proof {
                    reveal_strlit("case");
                    lemma_opening_brace(text, from, end, 0);
                    lemma_trim_start(text, from, brace);
                    lemma_scrutinee_end(text, start, brace);
                }
                match exp_at(text, start, stop) {
                    Some((scrutinee, after)) => if after == stop {
                        match branch_list_at(text, brace, end) {
                            Some((arms, next)) => Some(
                                (Term::Case(Box::new(scrutinee), arms), next),
                            ),
                            None => None,
                        }
                    } else {
                        None
                    },
                    None => None,
                }
            },
            None => None,
        }
    } else {
        None
    }
}

/// The branches of a case expression at `at`, in braces, with `;` between
/// them and, if one likes, after the last.
pub open spec fn branch_list_at(text: Seq<char>, at: int, end: int) -> Option<(Seq<Arm>, int)>
    decreases end - at, 2nat,
    when in_bounds(text, at, end)
{
    let open = skip_spaces(text, at, end);
    if char_at(text, open, end, '{') {
        proof {
            lemma_skip_spaces(text, at, end);
        }
        let (arms, next) = branches_at(text, open + 1, end);
        let last = skip_spaces(text, next, end);
        let close = skip_spaces(
            text,
            if char_at(text, last, end, ';') {
                last + 1
            } else {
                last
            },
            end,
        );
        if char_at(text, close, end, '}') {
            Some((arms, close + 1))
        } else {
            None
        }
    } else {
        None
    }
}

/// A list of branches at `at`, with `;` between them.
pub open spec fn branches_at(text: Seq<char>, at: int, end: int) -> (Seq<Arm>, int)
    decreases end - at, 1nat,
    when in_bounds(text, at, end)
{
    match branch_at(text, at, end) {
        Some((arm, next)) => if at < next <= end {
            more_branches(text, next, end, seq![arm])
        } else {
            (seq![arm], next)
        },
        None => (Seq::empty(), at),
    }
}

/// The branches from `at` on, with `;` between them, after the branches in
/// `found`.
pub open spec fn more_branches(text: Seq<char>, at: int, end: int, found: Seq<Arm>) -> (
    Seq<Arm>,
    int,
)
    decreases end - at, 1nat,
    when in_bounds(text, at, end)
{
    let sign = skip_spaces(text, at, end);
    if char_at(text, sign, end, ';') {
        proof {
            lemma_skip_spaces(text, at, end);
        }
        match branch_at(text, sign + 1, end) {
            Some((arm, next)) => if at < next <= end {
                more_branches(text, next, end, found.push(arm))
            } else {
                (found.push(arm), next)
            },
            None => (found, at),
        }
    } else {
        (found, at)
    }
}

/// A branch at `at`.
pub open spec fn branch_at(text: Seq<char>, at: int, end: int) -> Option<(Arm, int)>
    decreases end - at, 0nat,
    when in_bounds(text, at, end)
{
    match constructor_at(text, skip_spaces(text, at, end), end) {
        Some((constructor, next)) => {
            let open = skip_spaces(text, next, end);
            if char_at(text, open, end, '(') {
                let (parameters, last) = names_at(text, open + 1, end);
                let close = skip_spaces(text, last, end);
                if char_at(text, close, end, ')') {
                    match arrow_at(text, skip_spaces(text, close + 1, end), end) {
                        Some(after) => {
                            proof {
                                lemma_skip_spaces(text, at, end);
                                lemma_name_end(text, skip_spaces(text, at, end) + 1, end);
                                lemma_skip_spaces(text, next, end);
                                lemma_names_at(text, open + 1, end);
                                lemma_skip_spaces(text, last, end);
                                lemma_skip_spaces(text, close + 1, end);
                                lemma_skip_spaces(text, after, end);
                            }
                            match exp_at(text, skip_spaces(text, after, end), end) {
                                Some((body, rest)) => Some(
                                    (Arm { constructor, parameters, expression: Box::new(body) }, rest),
                                ),
                                None => None,
                            }
                        },
                        None => None,
                    }
                } else {
                    None
                }
            } else {
                None
            }
        },
        None => None,
    }
}

/// A constructor application at `at`.
pub open spec fn const_at(text: Seq<char>, at: int, end: int) -> Option<(Term, int)>
    decreases end - at, 0nat,
    when in_bounds(text, at, end)
{
    match constructor_at(text, skip_spaces(text, at, end), end) {
        Some((constructor, next)) => {
            let open = skip_spaces(text, next, end);
            if char_at(text, open, end, '(') {
                proof {
                    lemma_skip_spaces(text, at, end);
                    lemma_name_end(text, skip_spaces(text, at, end) + 1, end);
                    lemma_skip_spaces(text, next, end);
                }
                let (arguments, last) = exps_at(text, open + 1, end);
                let close = skip_spaces(text, last, end);
                if char_at(text, close, end, ')') {
                    Some((Term::Const(constructor, arguments), close + 1))
                } else {
                    None
                }
            } else {
                None
            }
        },
        None => None,
    }
}

/// A list of terms at `at`, with `,` between them.
pub open spec fn exps_at(text: Seq<char>, at: int, end: int) -> (Seq<Term>, int)
    decreases end - at, 4nat,
    when in_bounds(text, at, end)
{
    proof {
        lemma_skip_spaces(text, at, end);
    }
    match exp_at(text, skip_spaces(text, at, end), end) {
        Some((term, next)) => if at < next <= end {
            more_exps(text, next, end, seq![term])
        } else {
            (seq![term], next)
        },
        None => (Seq::empty(), at),
    }
}

/// The terms from `at` on, with `,` between them, after the terms in
/// `found`.
pub open spec fn more_exps(text: Seq<char>, at: int, end: int, found: Seq<Term>) -> (
    Seq<Term>,
    int,
)
    decreases end - at, 4nat,
    when in_bounds(text, at, end)
{
    let comma = skip_spaces(text, at, end);
    if char_at(text, comma, end, ',') {
        proof {
            lemma_skip_spaces(text, at, end);
            lemma_skip_spaces(text, comma + 1, end);
        }
        match exp_at(text, skip_spaces(text, comma + 1, end), end) {
            Some((term, next)) => if at < next <= end {
                more_exps(text, next, end, found.push(term))
            } else {
                (found.push(term), next)
            },
            None => (found, at),
        }
    } else {
        (found, at)
    }
}

/// What may stand as function or argument of an application, at `at`: a
/// variable, a constructor application, a term in round brackets or a case
/// expression.
pub open spec fn operand_at(text: Seq<char>, at: int, end: int) -> Option<(Term, int)>
    decreases end - at, 1nat,
    when in_bounds(text, at, end)
{
    match variable_at(text, at, end) {
        Some((name, next)) => Some((Term::Var(name), next)),
        None => or(
            const_at(text, at, end),
            or(bracketed_at(text, at, end), case_at(text, at, end)),
        ),
    }
}

/// A term in round brackets at `at`.
pub open spec fn bracketed_at(text: Seq<char>, at: int, end: int) -> Option<(Term, int)>
    decreases end - at, 0nat,
    when in_bounds(text, at, end)
{
    let open = skip_spaces(text, at, end);
    if char_at(text, open, end, '(') {
        proof {
            lemma_skip_spaces(text, at, end);
        }
        match exp_at(text, open + 1, end) {
            Some((term, next)) => {
                let close = skip_spaces(text, next, end);
                if char_at(text, close, end, ')') {
                    Some((term, close + 1))
                } else {
                    None
                }
            },
            None => None,
        }
    } else {
        None
    }
}

/// An application at `at`: two operands or more, applied from the left.
pub open spec fn apply_at(text: Seq<char>, at: int, end: int) -> Option<(Term, int)>
    decreases end - at, 2nat,
    when in_bounds(text, at, end)
{
    proof {
        lemma_skip_spaces(text, at, end);
    }
    match operand_at(text, skip_spaces(text, at, end), end) {
        Some((first, next)) => if at < next <= end {
            proof {
                lemma_skip_spaces(text, next, end);
            }
            match operand_at(text, skip_spaces(text, next, end), end) {
                Some((second, rest)) => if next < rest <= end {
                    more_operands(
                        text,
                        rest,
                        end,
                        Term::Apply(Box::new(first), Box::new(second)),
                    )
                } else {
                    None
                },
                None => None,
            }
        } else {
            None
        },
        None => None,
    }
}

/// The application of `function` to the operands from `at` on, one after
/// the other.
pub open spec fn more_operands(text: Seq<char>, at: int, end: int, function: Term) -> Option<
    (Term, int),
>
    decreases end - at, 2nat,
    when in_bounds(text, at, end)
{
    proof {
        lemma_skip_spaces(text, at, end);
    }
    match operand_at(text, skip_spaces(text, at, end), end) {
        Some((argument, next)) => if at < next <= end {
            more_operands(text, next, end, Term::Apply(Box::new(function), Box::new(argument)))
        } else {
            None
        },
        None => Some((function, at)),
    }
}

/// What a text means: the term that it holds as a whole, comments and
/// white space at its end apart.
pub open spec fn parsed(text: Seq<char>) -> Option<Term> {
    match exp_at(text, 0, text.len() as int) {
        Some((term, next)) => if all_white(text, next, text.len() as int) {
            Some(term)
        } else {
            None
        },
        None => None,
    }
}

/// The opening brace lies at or after the start, before the end.
pub proof fn lemma_opening_brace(text: Seq<char>, at: int, end: int, open: nat)
    ensures
        opening_brace(text, at, end, open) matches Some(brace) ==> at <= brace < end,
    decreases end - at,
{
    if 0 <= at < end <= text.len() {
        if text[at] == 'c' {
            lemma_opening_brace(
                text,
                at + 1,
                end,
                if tag_at(text, at, end, "case"@) {
                    open + 1
                } else {
                    open
                },
            );
        } else if text[at] == '{' {
            if open != 0 {
                lemma_opening_brace(text, at + 1, end, open);
            }
        } else if text[at] == '}' {
            if open != 0 {
                lemma_opening_brace(text, at + 1, end, (open - 1) as nat);
            }
        } else {
            lemma_opening_brace(text, at + 1, end, open);
        }
    }
}

/// Trimming at the start goes forward and stays within the text.
pub proof fn lemma_trim_start(text: Seq<char>, at: int, end: int)
    ensures
        at <= trim_start(text, at, end),
        at <= end ==> trim_start(text, at, end) <= end,
    decreases end - at,
{
    if 0 <= at < end <= text.len() && is_white(text[at]) {
        lemma_trim_start(text, at + 1, end);
    }
}

/// Trimming at the end goes backward and stays within the text.
pub proof fn lemma_trim_end(text: Seq<char>, at: int, end: int)
    ensures
        trim_end(text, at, end) <= end,
        at <= end ==> at <= trim_end(text, at, end),
    decreases end - at,
{
    if 0 <= at < end <= text.len() && is_white(text[end - 1]) {
        lemma_trim_end(text, at, end - 1);
    }
}

/// Taking the words `of` off goes backward and stays within the text.
pub proof fn lemma_before_of(text: Seq<char>, at: int, end: int)
    ensures
        before_of(text, at, end) <= end,
        at <= end ==> at <= before_of(text, at, end),
    decreases end - at,
{
    if 0 <= at && at + 2 <= end <= text.len() && text[end - 2] == 'o' && text[end - 1] == 'f' {
        lemma_before_of(text, at, end - 2);
    }
}

/// The end of a scrutinee lies within the text.
pub proof fn lemma_scrutinee_end(text: Seq<char>, at: int, end: int)
    ensures
        scrutinee_end(text, at, end) <= end,
        at <= end ==> at <= scrutinee_end(text, at, end),
{
    let first = trim_end(text, at, end);
    let second = before_of(text, at, first);
    lemma_trim_end(text, at, end);
    lemma_before_of(text, at, first);
    lemma_trim_end(text, at, second);
}

} // verus!
