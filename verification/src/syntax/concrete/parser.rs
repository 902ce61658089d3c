//! Reading terms in the concrete syntax.

use crate::syntax::concrete::grammar::{
    all_white, apply_at, arrow_at, before_of, bracketed_at, branch_at, branch_list_at,
    branches_at, case_at, const_at, exp_at, exps_at, lambda_at, more_branches, more_exps,
    more_names, more_operands, names_at, opening_brace, operand_at, parsed, rec_at, trim_end,
    trim_start,
};
use crate::syntax::lexical::{is_char, is_tag, read_constructor, read_variable, skip, white};
use crate::syntax::text::{chars_of, push_char, text_of};
use crate::syntax::{arms_of, lemma_case_view, lemma_const_view, names_view, terms_of, Branch, Exp};
use vstd::prelude::*;

verus! {

/// Where a reader of source text stands: in code, in a comment that runs to
/// the end of the line, or in a comment between `{-` and `-}`.
pub enum Mode {
    Code,
    Line,
    Block,
}

/// Whether the character after position `at` is `c`.
pub open spec fn followed_by(text: Seq<char>, at: int, c: char) -> bool {
    at + 1 < text.len() && text[at + 1] == c
}

/// The text from position `at` on without its comments, for a reader that
/// stands in `mode`.
///
/// In code, `--` starts a comment that ends before the next line feed, and
/// `{-` starts a comment that ends after the next `-}`. Inside a comment
/// between `{-` and `-}` a further `{-` is passed over as a whole, and
/// nothing else is looked at.
pub open spec fn strip(text: Seq<char>, at: int, mode: Mode) -> Seq<char>
    decreases text.len() - at,
{
    if at < 0 || at >= text.len() {
        Seq::empty()
    } else {
        let c = text[at];
        match mode {
            Mode::Line => if c == '\n' {
                seq![c] + strip(text, at + 1, Mode::Code)
            } else {
                strip(text, at + 1, Mode::Line)
            },
            Mode::Code => if c == '-' && followed_by(text, at, '-') {
                strip(text, at + 1, Mode::Line)
            } else if c == '{' && followed_by(text, at, '-') {
                strip(text, at + 2, Mode::Block)
            } else {
                seq![c] + strip(text, at + 1, Mode::Code)
            },
            Mode::Block => if c == '{' && followed_by(text, at, '-') {
                strip(text, at + 2, Mode::Block)
            } else if c == '-' && followed_by(text, at, '}') {
                strip(text, at + 2, Mode::Code)
            } else {
                strip(text, at + 1, Mode::Block)
            },
        }
    }
}

/// The source text without its comments.
pub open spec fn without_comments(text: Seq<char>) -> Seq<char> {
    strip(text, 0, Mode::Code)
}

/// Removes the comments from a source text: from `--` to the end of the
/// line, the line feed kept, and from `{-` to `-}`.
pub fn remove_comment(code: &str) -> (result: String)
    ensures
        result@ == without_comments(code@),
{
    let chars = chars_of(code);
    let mut result = String::new();
    let mut mode = Mode::Code;
    let mut i: usize = 0;
    while i < chars.len()
        invariant
            i <= chars@.len(),
            result@ + strip(chars@, i as int, mode) == without_comments(chars@),
        decreases chars.len() - i,
    {
        let c = chars[i];
        let ghost before = result@;
        let ghost rest = strip(chars@, i as int, mode);
        match mode {
            Mode::Line => {
                if c == '\n' {
                    push_char(&mut result, c);
                    mode = Mode::Code;
                }
                i += 1;
            },
            Mode::Code => {
                if c == '-' && i + 1 < chars.len() && chars[i + 1] == '-' {
                    mode = Mode::Line;
                    i += 1;
                } else if c == '{' && i + 1 < chars.len() && chars[i + 1] == '-' {
                    mode = Mode::Block;
                    i += 2;
                } else {
                    push_char(&mut result, c);
                    i += 1;
                }
            },
            Mode::Block => {
                if c == '{' && i + 1 < chars.len() && chars[i + 1] == '-' {
                    i += 2;
                } else if c == '-' && i + 1 < chars.len() && chars[i + 1] == '}' {
                    mode = Mode::Code;
                    i += 2;
                } else {
                    i += 1;
                }
            },
        }
        assert(result@ + strip(chars@, i as int, mode) =~= before + rest);
    }
    assert(result@ + Seq::<char>::empty() =~= result@);
    result
}

/// What a reader found at a position: a term and the position after it.
pub open spec fn found(result: Option<(Exp, usize)>) -> Option<(crate::syntax::Term, int)> {
    match result {
        Some((exp, next)) => Some((exp@, next as int)),
        None => None,
    }
}

fn read_names(chars: &Vec<char>, at: usize, end: usize) -> (result: (Vec<String>, usize))
    requires
        at <= end <= chars@.len(),
    ensures
        (names_view(result.0@), result.1 as int) == names_at(chars@, at as int, end as int),
        at <= result.1 <= end,
{
    let mut names: Vec<String> = Vec::new();
    let mut pos: usize = at;
    match read_variable(chars, skip(chars, at, end), end) {
        None => {
            assert(names_view(names@) =~= Seq::<Seq<char>>::empty());
            return (names, at);
        },
        Some((name, next)) => {
            names.push(name);
            pos = next;
            assert(names_view(names@) =~= seq![name@]);
        },
    }
    loop
        invariant
            at <= pos <= end <= chars@.len(),
            more_names(chars@, pos as int, end as int, names_view(names@)) == names_at(
                chars@,
                at as int,
                end as int,
            ),
        decreases end - pos,
    {
        let comma = skip(chars, pos, end);
        if !is_char(chars, comma, end, ',') {
            return (names, pos);
        }
        match read_variable(chars, skip(chars, comma + 1, end), end) {
            None => {
                return (names, pos);
            },
            Some((name, next)) => {
                let ghost before = names_view(names@);
                names.push(name);
                pos = next;
                assert(names_view(names@) =~= before.push(name@));
            },
        }
    }
}

fn read_arrow(chars: &Vec<char>, at: usize, end: usize) -> (result: Option<usize>)
    requires
        at <= end <= chars@.len(),
    ensures
        match result {
            Some(next) => arrow_at(chars@, at as int, end as int) == Some(next as int) && at
                < next <= end,
            None => arrow_at(chars@, at as int, end as int) is None,
        },
{
    proof {
        reveal_strlit("->");
    }
    if is_tag(chars, at, end, "->") {
        Some(at + 2)
    } else if is_char(chars, at, end, '\u{2192}') {
        Some(at + 1)
    } else {
        None
    }
}

fn find_opening_brace(chars: &Vec<char>, at: usize, end: usize) -> (result: Option<usize>)
    requires
        at <= end <= chars@.len(),
    ensures
        match result {
            Some(brace) => opening_brace(chars@, at as int, end as int, 0) == Some(brace as int)
                && at <= brace < end,
            None => opening_brace(chars@, at as int, end as int, 0) is None,
        },
{
    let mut i: usize = at;
    let mut open: usize = 0;
    while i < end
        invariant
            at <= i <= end <= chars@.len(),
            open <= i - at,
            opening_brace(chars@, i as int, end as int, open as nat) == opening_brace(
                chars@,
                at as int,
                end as int,
                0,
            ),
        decreases end - i,
    {
        let c = chars[i];
        if c == 'c' {
            if is_tag(chars, i, end, "case") {
                open += 1;
            }
        } else if c == '{' {
            if open == 0 {
                return Some(i);
            }
        } else if c == '}' {
            if open == 0 {
                return None;
            }
            open -= 1;
        }
        i += 1;
    }
    None
}

fn trimmed_start(chars: &Vec<char>, at: usize, end: usize) -> (result: usize)
    requires
        at <= end <= chars@.len(),
    ensures
        result as int == trim_start(chars@, at as int, end as int),
        at <= result <= end,
{
    let mut i: usize = at;
    while i < end && white(chars[i])
        invariant
            at <= i <= end <= chars@.len(),
            trim_start(chars@, i as int, end as int) == trim_start(chars@, at as int, end as int),
        decreases end - i,
    {
        i += 1;
    }
    i
}

fn trimmed_end(chars: &Vec<char>, at: usize, end: usize) -> (result: usize)
    requires
        at <= end <= chars@.len(),
    ensures
        result as int == trim_end(chars@, at as int, end as int),
        at <= result <= end,
{
    let mut i: usize = end;
    while at < i && white(chars[i - 1])
        invariant
            at <= i <= end <= chars@.len(),
            trim_end(chars@, at as int, i as int) == trim_end(chars@, at as int, end as int),
        decreases i - at,
    {
        i -= 1;
    }
    i
}

fn without_of(chars: &Vec<char>, at: usize, end: usize) -> (result: usize)
    requires
        at <= end <= chars@.len(),
    ensures
        result as int == before_of(chars@, at as int, end as int),
        at <= result <= end,
{
    let mut i: usize = end;
    while i - at >= 2 && chars[i - 2] == 'o' && chars[i - 1] == 'f'
        invariant
            at <= i <= end <= chars@.len(),
            before_of(chars@, at as int, i as int) == before_of(chars@, at as int, end as int),
        decreases i - at,
    {
        i -= 2;
    }
    i
}

fn read_exps(chars: &Vec<char>, at: usize, end: usize) -> (result: (Vec<Exp>, usize))
    requires
        at <= end <= chars@.len(),
    ensures
        (terms_of(result.0@), result.1 as int) == exps_at(chars@, at as int, end as int),
        at <= result.1 <= end,
    decreases end - at, 4nat,
{
    let mut exps: Vec<Exp> = Vec::new();
    let mut pos: usize = at;
    match read_exp(chars, skip(chars, at, end), end) {
        None => {
            assert(terms_of(exps@) =~= Seq::<crate::syntax::Term>::empty());
            return (exps, at);
        },
        Some((exp, next)) => {
            exps.push(exp);
            pos = next;
            assert(terms_of(exps@) =~= seq![exp@]);
        },
    }
    loop
        invariant
            at < pos <= end <= chars@.len(),
            more_exps(chars@, pos as int, end as int, terms_of(exps@)) == exps_at(
                chars@,
                at as int,
                end as int,
            ),
        decreases end - pos,
    {
        let comma = skip(chars, pos, end);
        if !is_char(chars, comma, end, ',') {
            return (exps, pos);
        }
        match read_exp(chars, skip(chars, comma + 1, end), end) {
            None => {
                return (exps, pos);
            },
            Some((exp, next)) => {
                let ghost before = terms_of(exps@);
                exps.push(exp);
                pos = next;
                assert(terms_of(exps@) =~= before.push(exp@));
            },
        }
    }
}

fn read_const(chars: &Vec<char>, at: usize, end: usize) -> (result: Option<(Exp, usize)>)
    requires
        at <= end <= chars@.len(),
    ensures
        found(result) == const_at(chars@, at as int, end as int),
        result matches Some((_, next)) ==> at < next <= end,
    decreases end - at, 0nat,
{
    match read_constructor(chars, skip(chars, at, end), end) {
        None => None,
        Some((constructor, next)) => {
            let open = skip(chars, next, end);
            if !is_char(chars, open, end, '(') {
                return None;
            }
            let (arguments, last) = read_exps(chars, open + 1, end);
            let close = skip(chars, last, end);
            if !is_char(chars, close, end, ')') {
                return None;
            }
            proof {
                lemma_const_view(constructor, arguments);
            }
            Some((Exp::Const(constructor, arguments), close + 1))
        },
    }
}

fn read_bracketed(chars: &Vec<char>, at: usize, end: usize) -> (result: Option<(Exp, usize)>)
    requires
        at <= end <= chars@.len(),
    ensures
        found(result) == bracketed_at(chars@, at as int, end as int),
        result matches Some((_, next)) ==> at < next <= end,
    decreases end - at, 0nat,
{
    let open = skip(chars, at, end);
    if !is_char(chars, open, end, '(') {
        return None;
    }
    match read_exp(chars, open + 1, end) {
        None => None,
        Some((exp, next)) => {
            let close = skip(chars, next, end);
            if !is_char(chars, close, end, ')') {
                return None;
            }
            Some((exp, close + 1))
        },
    }
}

fn read_branch(chars: &Vec<char>, at: usize, end: usize) -> (result: Option<(Branch, usize)>)
    requires
        at <= end <= chars@.len(),
    ensures
        match result {
            Some((branch, next)) => branch_at(chars@, at as int, end as int) == Some(
                (branch@, next as int),
            ) && at < next <= end,
            None => branch_at(chars@, at as int, end as int) is None,
        },
    decreases end - at, 0nat,
{
    match read_constructor(chars, skip(chars, at, end), end) {
        None => None,
        Some((constructor, next)) => {
            let open = skip(chars, next, end);
            if !is_char(chars, open, end, '(') {
                return None;
            }
            let (parameters, last) = read_names(chars, open + 1, end);
            let close = skip(chars, last, end);
            if !is_char(chars, close, end, ')') {
                return None;
            }
            match read_arrow(chars, skip(chars, close + 1, end), end) {
                None => None,
                Some(after) => {
                    match read_exp(chars, skip(chars, after, end), end) {
                        None => None,
                        Some((body, rest)) => Some(
                            (Branch { constructor, parameters, expression: Box::new(body) }, rest),
                        ),
                    }
                },
            }
        },
    }
}

fn read_branches(chars: &Vec<char>, at: usize, end: usize) -> (result: (Vec<Branch>, usize))
    requires
        at <= end <= chars@.len(),
    ensures
        (arms_of(result.0@), result.1 as int) == branches_at(chars@, at as int, end as int),
        at <= result.1 <= end,
    decreases end - at, 1nat,
{
    let mut branches: Vec<Branch> = Vec::new();
    let mut pos: usize = at;
    match read_branch(chars, at, end) {
        None => {
            assert(arms_of(branches@) =~= Seq::<crate::syntax::Arm>::empty());
            return (branches, at);
        },
        Some((branch, next)) => {
            branches.push(branch);
            pos = next;
            assert(arms_of(branches@) =~= seq![branch@]);
        },
    }
    loop
        invariant
            at < pos <= end <= chars@.len(),
            more_branches(chars@, pos as int, end as int, arms_of(branches@)) == branches_at(
                chars@,
                at as int,
                end as int,
            ),
        decreases end - pos,
    {
        let sign = skip(chars, pos, end);
        if !is_char(chars, sign, end, ';') {
            return (branches, pos);
        }
        match read_branch(chars, sign + 1, end) {
            None => {
                return (branches, pos);
            },
            Some((branch, next)) => {
                let ghost before = arms_of(branches@);
                branches.push(branch);
                pos = next;
                assert(arms_of(branches@) =~= before.push(branch@));
            },
        }
    }
}

fn read_branch_list(chars: &Vec<char>, at: usize, end: usize) -> (result: Option<
    (Vec<Branch>, usize),
>)
    requires
        at <= end <= chars@.len(),
    ensures
        match result {
            Some((branches, next)) => branch_list_at(chars@, at as int, end as int) == Some(
                (arms_of(branches@), next as int),
            ) && at < next <= end,
            None => branch_list_at(chars@, at as int, end as int) is None,
        },
    decreases end - at, 2nat,
{
    let open = skip(chars, at, end);
    if !is_char(chars, open, end, '{') {
        return None;
    }
    let (branches, next) = read_branches(chars, open + 1, end);
    let last = skip(chars, next, end);
    let after = if is_char(chars, last, end, ';') {
        last + 1
    } else {
        last
    };
    let close = skip(chars, after, end);
    if !is_char(chars, close, end, '}') {
        return None;
    }
    Some((branches, close + 1))
}

fn read_case(chars: &Vec<char>, at: usize, end: usize) -> (result: Option<(Exp, usize)>)
    requires
        at <= end <= chars@.len(),
    ensures
        found(result) == case_at(chars@, at as int, end as int),
        result matches Some((_, next)) ==> at < next <= end,
    decreases end - at, 0nat,
{
    proof {
        reveal_strlit("case");
    }
    if !is_tag(chars, at, end, "case") {
        return None;
    }
    let from = at + 4;
    match find_opening_brace(chars, from, end) {
        None => None,
        Some(brace) => {
            let start = trimmed_start(chars, from, brace);
            let first = trimmed_end(chars, start, brace);
            let second = without_of(chars, start, first);
            let stop = trimmed_end(chars, start, second);
            match read_exp(chars, start, stop) {
                None => None,
                Some((scrutinee, after)) => {
                    if after != stop {
                        return None;
                    }
                    match read_branch_list(chars, brace, end) {
                        None => None,
                        Some((branches, next)) => {
                            proof {
                                lemma_case_view(scrutinee, branches);
                            }
                            Some((Exp::Case(Box::new(scrutinee), branches), next))
                        },
                    }
                },
            }
        },
    }
}

fn read_lambda(chars: &Vec<char>, at: usize, end: usize) -> (result: Option<(Exp, usize)>)
    requires
        at <= end <= chars@.len(),
    ensures
        found(result) == lambda_at(chars@, at as int, end as int),
        result matches Some((_, next)) ==> at < next <= end,
    decreases end - at, 0nat,
{
    if !(at < end && (chars[at] == '\\' || chars[at] == '\u{3bb}' || chars[at] == '\u{1d706}')) {
        return None;
    }
    match read_variable(chars, skip(chars, at + 1, end), end) {
        None => None,
        Some((name, next)) => {
            let dot = skip(chars, next, end);
            if !is_char(chars, dot, end, '.') {
                return None;
            }
            match read_exp(chars, skip(chars, dot + 1, end), end) {
                None => None,
                Some((body, after)) => Some((Exp::Lambda(name, Box::new(body)), after)),
            }
        },
    }
}

fn read_rec(chars: &Vec<char>, at: usize, end: usize) -> (result: Option<(Exp, usize)>)
    requires
        at <= end <= chars@.len(),
    ensures
        found(result) == rec_at(chars@, at as int, end as int),
        result matches Some((_, next)) ==> at < next <= end,
    decreases end - at, 0nat,
{
    proof {
        reveal_strlit("rec");
    }
    if !is_tag(chars, at, end, "rec") {
        return None;
    }
    match read_variable(chars, skip(chars, at + 3, end), end) {
        None => None,
        Some((name, next)) => {
            let sign = skip(chars, next, end);
            if !is_char(chars, sign, end, '=') {
                return None;
            }
            match read_exp(chars, skip(chars, sign + 1, end), end) {
                None => None,
                Some((body, after)) => Some((Exp::Rec(name, Box::new(body)), after)),
            }
        },
    }
}

fn read_operand(chars: &Vec<char>, at: usize, end: usize) -> (result: Option<(Exp, usize)>)
    requires
        at <= end <= chars@.len(),
    ensures
        found(result) == operand_at(chars@, at as int, end as int),
        result matches Some((_, next)) ==> at < next <= end,
    decreases end - at, 1nat,
{
    match read_variable(chars, at, end) {
        Some((name, next)) => Some((Exp::Var(name), next)),
        None => {
            match read_const(chars, at, end) {
                Some(result) => Some(result),
                None => {
                    match read_bracketed(chars, at, end) {
                        Some(result) => Some(result),
                        None => read_case(chars, at, end),
                    }
                },
            }
        },
    }
}

fn read_apply(chars: &Vec<char>, at: usize, end: usize) -> (result: Option<(Exp, usize)>)
    requires
        at <= end <= chars@.len(),
    ensures
        found(result) == apply_at(chars@, at as int, end as int),
        result matches Some((_, next)) ==> at < next <= end,
    decreases end - at, 2nat,
{
    let (first, next) = match read_operand(chars, skip(chars, at, end), end) {
        None => {
            return None;
        },
        Some(result) => result,
    };
    let (second, rest) = match read_operand(chars, skip(chars, next, end), end) {
        None => {
            return None;
        },
        Some(result) => result,
    };
    let mut function = Exp::Apply(Box::new(first), Box::new(second));
    let mut pos: usize = rest;
    loop
        invariant
            at < pos <= end <= chars@.len(),
            more_operands(chars@, pos as int, end as int, function@) == apply_at(
                chars@,
                at as int,
                end as int,
            ),
        decreases end - pos,
    {
        match read_operand(chars, skip(chars, pos, end), end) {
            None => {
                return Some((function, pos));
            },
            Some((argument, after)) => {
                function = Exp::Apply(Box::new(function), Box::new(argument));
                pos = after;
            },
        }
    }
}

/// Reads a term at `at`.
pub fn read_exp(chars: &Vec<char>, at: usize, end: usize) -> (result: Option<(Exp, usize)>)
    requires
        at <= end <= chars@.len(),
    ensures
        found(result) == exp_at(chars@, at as int, end as int),
        result matches Some((_, next)) ==> at < next <= end,
    decreases end - at, 3nat,
{
    if let Some(result) = read_lambda(chars, at, end) {
        return Some(result);
    }
    if let Some(result) = read_rec(chars, at, end) {
        return Some(result);
    }
    if let Some(result) = read_case(chars, at, end) {
        return Some(result);
    }
    if let Some(result) = read_apply(chars, at, end) {
        return Some(result);
    }
    read_operand(chars, at, end)
}

/// What reading at the start of a text gave: the rest of the text and the
/// term, as mathematical values.
pub open spec fn outcome(result: Result<(String, Exp), ()>) -> Option<
    (Seq<char>, crate::syntax::Term),
> {
    match result {
        Ok((rest, exp)) => Some((rest@, exp@)),
        Err(_) => None,
    }
}

/// The rest of a text after what was read at its start, and the term.
pub open spec fn remainder(text: Seq<char>, read: Option<(crate::syntax::Term, int)>) -> Option<
    (Seq<char>, crate::syntax::Term),
> {
    match read {
        Some((term, next)) => Some((text.subrange(next, text.len() as int), term)),
        None => None,
    }
}

fn rest_after(chars: &Vec<char>, read: Option<(Exp, usize)>) -> (result: Result<
    (String, Exp),
    (),
>)
    requires
        read matches Some((_, next)) ==> next <= chars@.len(),
    ensures
        outcome(result) == remainder(chars@, found(read)),
{
    match read {
        Some((exp, next)) => Ok((text_of(chars, next, chars.len()), exp)),
        None => Err(()),
    }
}

/// Reads a constructor application at the start of a text, and gives the
/// rest of the text with it.
pub fn parse_const(code: &str) -> (result: Result<(String, Exp), ()>)
    ensures
        outcome(result) == remainder(code@, const_at(code@, 0, code@.len() as int)),
{
    let chars = chars_of(code);
    rest_after(&chars, read_const(&chars, 0, chars.len()))
}

/// Reads a case expression at the start of a text, and gives the rest of
/// the text with it.
pub fn case(code: &str) -> (result: Result<(String, Exp), ()>)
    ensures
        outcome(result) == remainder(code@, case_at(code@, 0, code@.len() as int)),
{
    let chars = chars_of(code);
    rest_after(&chars, read_case(&chars, 0, chars.len()))
}

/// Reads an application at the start of a text, and gives the rest of the
/// text with it.
pub fn apply(code: &str) -> (result: Result<(String, Exp), ()>)
    ensures
        outcome(result) == remainder(code@, apply_at(code@, 0, code@.len() as int)),
{
    let chars = chars_of(code);
    rest_after(&chars, read_apply(&chars, 0, chars.len()))
}

/// Reads an abstraction at the start of a text, and gives the rest of the
/// text with it.
pub fn lambda(code: &str) -> (result: Result<(String, Exp), ()>)
    ensures
        outcome(result) == remainder(code@, lambda_at(code@, 0, code@.len() as int)),
{
    let chars = chars_of(code);
    rest_after(&chars, read_lambda(&chars, 0, chars.len()))
}

/// Reads a recursive binding at the start of a text, and gives the rest of
/// the text with it.
pub fn rec(code: &str) -> (result: Result<(String, Exp), ()>)
    ensures
        outcome(result) == remainder(code@, rec_at(code@, 0, code@.len() as int)),
{
    let chars = chars_of(code);
    rest_after(&chars, read_rec(&chars, 0, chars.len()))
}

/// Reads a term at the start of a text, and gives the rest of the text with
/// it.
pub fn parse_exp(code: &str) -> (result: Result<(String, Exp), ()>)
    ensures
        outcome(result) == remainder(code@, exp_at(code@, 0, code@.len() as int)),
{
    let chars = chars_of(code);
    rest_after(&chars, read_exp(&chars, 0, chars.len()))
}

/// Reads a branch at the start of a text, and gives the rest of the text
/// with it.
pub fn branch(code: &str) -> (result: Result<(String, Branch), ()>)
    ensures
        match result {
            Ok((rest, branch)) => exists|next: int|
                branch_at(code@, 0, code@.len() as int) == Some((branch@, next)) && rest@
                    == code@.subrange(next, code@.len() as int),
            Err(_) => branch_at(code@, 0, code@.len() as int) is None,
        },
{
    let chars = chars_of(code);
    match read_branch(&chars, 0, chars.len()) {
        Some((branch, next)) => Ok((text_of(&chars, next, chars.len()), branch)),
        None => Err(()),
    }
}

/// Reads the branches of a case expression, in braces, at the start of a
/// text, and gives the rest of the text with them.
pub fn branch_list(code: &str) -> (result: Result<(String, Vec<Branch>), ()>)
    ensures
        match result {
            Ok((rest, branches)) => exists|next: int|
                branch_list_at(code@, 0, code@.len() as int) == Some((arms_of(branches@), next))
                    && rest@ == code@.subrange(next, code@.len() as int),
            Err(_) => branch_list_at(code@, 0, code@.len() as int) is None,
        },
{
    let chars = chars_of(code);
    match read_branch_list(&chars, 0, chars.len()) {
        Some((branches, next)) => Ok((text_of(&chars, next, chars.len()), branches)),
        None => Err(()),
    }
}

/// Whether only white space stands between `at` and `end`.
pub fn only_white(chars: &Vec<char>, at: usize, end: usize) -> (result: bool)
    requires
        at <= end <= chars@.len(),
    ensures
        result == all_white(chars@, at as int, end as int),
{
    let mut i: usize = at;
    while i < end
        invariant
            at <= i <= end <= chars@.len(),
            all_white(chars@, at as int, i as int),
        decreases end - i,
    {
        if !white(chars[i]) {
            return false;
        }
        i += 1;
    }
    true
}

/// What reading a text gave, as a mathematical value.
pub open spec fn reading(result: Result<Exp, ()>) -> Option<crate::syntax::Term> {
    match result {
        Ok(exp) => Some(exp@),
        Err(_) => None,
    }
}

/// Reads a term in the concrete syntax.
///
/// The comments are taken out, and what is left must be one term as a
/// whole, with nothing but white space after it.
pub fn parse(input: &str) -> (result: Result<Exp, ()>)
    ensures
        reading(result) == parsed(without_comments(input@)),
{
    let code = remove_comment(input);
    let chars = chars_of(code.as_str());
    match read_exp(&chars, 0, chars.len()) {
        Some((exp, rest)) => {
            if only_white(&chars, rest, chars.len()) {
                Ok(exp)
            } else {
                Err(())
            }
        },
        None => Err(()),
    }
}

} // verus!
