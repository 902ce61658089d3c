//! The abstract syntax written once more, with the parser combinators of
//! `nom`, and held against the reader of the library on a list of texts.

use chi::syntax::{Branch, Exp};
use nom::branch::alt;
use nom::bytes::complete::tag;
use nom::character::complete::{alphanumeric1, char, multispace0, one_of};
use nom::combinator::recognize;
use nom::multi::many0;
use nom::sequence::{delimited, pair, preceded, tuple};
use nom::IResult;

fn constructor(input: &str) -> IResult<&str, String> {
    let first = one_of("ABCDEFGHIJKLMNOPQRSTUVWXYZ");
    let rest = recognize(many0(alt((alphanumeric1, recognize(one_of("_-'"))))));
    nom::combinator::map(pair(first, rest), |(f, r): (char, &str)| format!("{}{}", f, r))(input)
}

fn variable(input: &str) -> IResult<&str, String> {
    let first = one_of("abcdefghijklmnopqrstuvwxyz_");
    let rest = recognize(many0(alt((alphanumeric1, recognize(one_of("_-'"))))));
    nom::combinator::map(pair(first, rest), |(f, r): (char, &str)| format!("{}{}", f, r))(input)
}

fn parse_list<'a, T, E: nom::error::ParseError<&'a str>, F>(
    parse_item: F,
) -> impl Fn(&'a str) -> IResult<&'a str, Vec<T>, E>
where
    F: Fn(&'a str) -> IResult<&'a str, T, E> + Copy,
{
    move |code| {
        if let Ok((rest, _nil)) = preceded(multispace0::<_, ()>, tag("nil"))(code) {
            Ok((rest, vec![]))
        } else {
            nom::combinator::map(
                tuple((
                    preceded(multispace0, tag("cons")),
                    alt((
                        delimited(
                            preceded(multispace0, char('(')),
                            parse_item,
                            preceded(multispace0, char(')')),
                        ),
                        preceded(multispace0, parse_item),
                    )),
                    alt((
                        delimited(
                            preceded(multispace0, char('(')),
                            parse_list(parse_item),
                            preceded(multispace0, char(')')),
                        ),
                        parse_list(parse_item),
                    )),
                )),
                |(_, item, rest)| {
                    let mut items = vec![item];
                    items.extend(rest);
                    items
                },
            )(code)
        }
    }
}

fn var(code: &str) -> IResult<&str, Exp> {
    nom::combinator::map(
        pair(tag("var"), preceded(multispace0, variable)),
        |(_, v)| Exp::Var(v),
    )(code)
}

fn constr(code: &str) -> IResult<&str, Exp> {
    nom::combinator::map(
        tuple((
            tag("const"),
            preceded(multispace0, constructor),
            alt((
                delimited(
                    preceded(multispace0, char('(')),
                    parse_list(var),
                    preceded(multispace0, char(')')),
                ),
                parse_list(var),
            )),
        )),
        |(_, name, params)| Exp::Const(name, params),
    )(code)
}

fn part(code: &str) -> IResult<&str, Exp> {
    alt((
        delimited(
            preceded(multispace0, char('(')),
            parse_exp,
            preceded(multispace0, char(')')),
        ),
        parse_exp,
    ))(code)
}

fn apply(code: &str) -> IResult<&str, Exp> {
    nom::combinator::map(tuple((tag("apply"), part, part)), |(_, f, x)| {
        Exp::Apply(Box::new(f), Box::new(x))
    })(code)
}

fn lambda(code: &str) -> IResult<&str, Exp> {
    nom::combinator::map(
        tuple((tag("lambda"), preceded(multispace0, variable), part)),
        |(_, v, e)| Exp::Lambda(v, Box::new(e)),
    )(code)
}

fn branch(code: &str) -> IResult<&str, Branch> {
    nom::combinator::map(
        tuple((
            tag("branch"),
            preceded(multispace0, constructor),
            alt((
                delimited(
                    preceded(multispace0, char('(')),
                    parse_list(variable),
                    preceded(multispace0, char(')')),
                ),
                parse_list(variable),
            )),
            part,
        )),
        |(_, c, v, e)| Branch {
            constructor: c,
            parameters: v,
            expression: Box::new(e),
        },
    )(code)
}

fn case(code: &str) -> IResult<&str, Exp> {
    nom::combinator::map(
        tuple((
            tag("case"),
            part,
            alt((
                delimited(
                    preceded(multispace0, char('(')),
                    parse_list(branch),
                    preceded(multispace0, char(')')),
                ),
                parse_list(branch),
            )),
        )),
        |(_, e, bs)| Exp::Case(Box::new(e), bs),
    )(code)
}

fn rec(code: &str) -> IResult<&str, Exp> {
    nom::combinator::map(
        tuple((tag("rec"), preceded(multispace0, variable), part)),
        |(_, v, e)| Exp::Rec(v, Box::new(e)),
    )(code)
}

fn parse_exp(code: &str) -> IResult<&str, Exp> {
    alt((var, constr, apply, lambda, case, rec))(code)
}

fn parse(code: &str) -> Result<Exp, ()> {
    match parse_exp(code) {
        Ok((rest, exp)) if rest.trim() == "" => Ok(exp),
        _ => Err(()),
    }
}

fn texts() -> Vec<&'static str> {
    vec![
        "",
        "var x",
        "var  x ",
        "varx",
        " var x",
        "var X",
        "var x\u{2003}",
        "const C nil",
        "const C(nil)",
        "const C ( nil )",
        "const Cnil",
        "const C nilly",
        "const C cons (var x) nil",
        "const C (cons (var x) nil)",
        "const C (cons var x nil)",
        "const C (cons (var x) (cons (var y) nil))",
        "const C (cons (var x) cons (var y) nil)",
        "const C (cons ( var x) nil)",
        "const C (cons (var x ) nil )",
        "const C (cons (const D nil) nil)",
        "const c nil",
        "apply (var x) (var y)",
        "apply(var x)(var y)",
        "apply var x (var y)",
        "applyvar x (var y)",
        "apply (var x) var y",
        "apply (var x)var y",
        "apply ( var x) (var y)",
        "apply (var x) (var y) (var z)",
        "apply (apply (var x) (var y)) (var z)",
        "apply (var x)",
        "lambda x (var x)",
        "lambda x var x",
        "lambdax(var x)",
        "lambda X (var x)",
        "lambda x (apply (var x) (var y))",
        "rec x (var x)",
        "rec x var x",
        "rec x (rec y (var x))",
        "case (var n) nil",
        "case (var n) (nil)",
        "case (var n)\n(cons (branch Zero nil (var x))\n(cons (branch Suc (cons n nil) (var n))\nnil))",
        "case (var n) (cons (branch Zero nil (var x)) nil)",
        "case (var n) cons (branch Zero nil (var x)) nil",
        "case (var n) (cons branch Zero nil (var x) nil)",
        "case (var n) (cons (branch Zero (nil) (var x)) nil)",
        "case (var n) (cons (branch Suc (cons n (cons m nil)) (var n)) nil)",
        "case (var n) (cons (branch Suc (cons (n) (cons m nil)) (var n)) nil)",
        "case (var n) (cons (branch Suc cons n nil (var n)) nil)",
        "case (var n) (cons (branch Suc (cons n nil) var n) nil)",
        "case (var n) (cons (branch suc (cons n nil) (var n)) nil)",
        "case var n nil",
        "rec y (case (var x) (\n  cons (branch C nil (var x)) (\n  cons (branch D (cons x nil) (var x)) \n  nil)))",
        "var x var y",
        "(var x)",
    ]
}

#[test]
fn readers_agree_on_abstract_texts() {
    for text in texts() {
        assert_eq!(chi::syntax::abst::parser::parse(text), parse(text), "on {:?}", text);
    }
}

#[test]
fn readers_agree_on_abstract_parts() {
    for text in texts() {
        let expected = match parse_exp(text) {
            Ok((rest, exp)) => Ok((rest.to_string(), exp)),
            Err(_) => Err(()),
        };
        let read = chi::syntax::abst::parser::read_exp(
            &text.chars().collect(),
            0,
            text.chars().count(),
        );
        let read = match read {
            Some((exp, next)) => Ok((text.chars().skip(next).collect::<String>(), exp)),
            None => Err(()),
        };
        assert_eq!(read, expected, "on {:?}", text);
        let expected = match branch(text) {
            Ok((rest, found)) => Ok((rest.to_string(), found)),
            Err(_) => Err(()),
        };
        assert_eq!(chi::syntax::abst::parser::branch(text), expected, "on {:?}", text);
    }
}
