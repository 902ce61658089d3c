//! The concrete syntax written once more, with the parser combinators of
//! `nom`, and held against the reader of the library on a list of texts.

use chi::syntax::concrete::parser::remove_comment;
use chi::syntax::{Branch, Exp};
use nom::branch::alt;
use nom::bytes::complete::tag;
use nom::character::complete::{alphanumeric1, char, multispace0, one_of};
use nom::combinator::{opt, recognize};
use nom::error::{Error, ErrorKind};
use nom::multi::{fold_many0, many0, separated_list0};
use nom::sequence::{delimited, pair, preceded, tuple};
use nom::IResult;

fn constructor(input: &str) -> IResult<&str, String> {
    let first = one_of("ABCDEFGHIJKLMNOPQRSTUVWXYZ");
    let rest = recognize(many0(alt((alphanumeric1, recognize(one_of("_-'"))))));
    nom::combinator::map(pair(first, rest), |(f, r): (char, &str)| format!("{}{}", f, r))(input)
}

fn variable(input: &str) -> IResult<&str, String> {
    let first = one_of("abcdefghijklmnopqrstuvwxyz_");
    let rest = recognize(many0(alt((alphanumeric1, recognize(one_of("_-'"))))));
    nom::combinator::map(pair(first, rest), |(f, r): (char, &str)| format!("{}{}", f, r))(input)
}

fn parse_const(code: &str) -> IResult<&str, Exp> {
    nom::combinator::map(
        tuple((
            preceded(multispace0, constructor),
            delimited(
                preceded(multispace0, char('(')),
                separated_list0(
                    preceded(multispace0, char(',')),
                    preceded(multispace0, parse_exp),
                ),
                preceded(multispace0, char(')')),
            ),
        )),
        |(constructor, arguments)| Exp::Const(constructor, arguments),
    )(code)
}

fn case_exp(code: &str) -> IResult<&str, Exp> {
    let chars = code.chars();
    let mut index = 0;
    let mut case_count: usize = 0;

    for c in chars {
        match c {
            'c' => {
                if code[index..].starts_with("case") {
                    case_count += 1;
                }
                index += c.len_utf8();
            }
            '{' => {
                if case_count == 0 {
                    let exp_part = &code[..index].trim().trim_end_matches("of").trim();
                    let (rest_code, exp) = parse_exp(exp_part)?;
                    if rest_code.is_empty() {
                        return Ok((&code[index..], exp));
                    } else {
                        return Err(nom::Err::Error(Error::new(code, ErrorKind::TakeUntil)));
                    }
                }
                index += c.len_utf8();
            }
            '}' => {
                if case_count == 0 {
                    return Err(nom::Err::Error(Error::new(code, ErrorKind::TakeUntil)));
                }
                case_count -= 1;
                index += c.len_utf8();
            }
            _ => index += c.len_utf8(),
        }
    }
    Err(nom::Err::Error(Error::new(code, ErrorKind::TakeUntil)))
}

fn branch(input: &str) -> IResult<&str, Branch> {
    nom::combinator::map(
        tuple((
            preceded(multispace0, constructor),
            delimited(
                preceded(multispace0, char('(')),
                separated_list0(
                    preceded(multispace0, char(',')),
                    preceded(multispace0, variable),
                ),
                preceded(multispace0, char(')')),
            ),
            preceded(multispace0, alt((tag("->"), tag("→")))),
            preceded(multispace0, parse_exp),
        )),
        |(constructor, parameters, _, expression)| Branch {
            constructor,
            parameters,
            expression: Box::new(expression),
        },
    )(input)
}

fn branch_list(code: &str) -> IResult<&str, Vec<Branch>> {
    delimited(
        preceded(multispace0, char('{')),
        separated_list0(preceded(multispace0, char(';')), branch),
        tuple((multispace0, opt(char(';')), multispace0, char('}'))),
    )(code)
}

fn case(code: &str) -> IResult<&str, Exp> {
    nom::combinator::map(
        tuple((tag("case"), case_exp, branch_list)),
        |(_, exp, branches)| Exp::Case(Box::new(exp), branches),
    )(code)
}

fn higher_than_apply(code: &str) -> IResult<&str, Exp> {
    alt((
        nom::combinator::map(variable, Exp::Var),
        parse_const,
        delimited(
            preceded(multispace0, char('(')),
            parse_exp,
            preceded(multispace0, char(')')),
        ),
        case,
    ))(code)
}

fn apply(code: &str) -> IResult<&str, Exp> {
    let (rest, first) = preceded(multispace0, higher_than_apply)(code)?;
    let (rest, second) = preceded(multispace0, higher_than_apply)(rest)?;
    fold_many0(
        preceded(multispace0, higher_than_apply),
        move || Exp::Apply(Box::new(first.clone()), Box::new(second.clone())),
        |lhs, rhs| Exp::Apply(Box::new(lhs), Box::new(rhs)),
    )(rest)
}

fn lambda(code: &str) -> IResult<&str, Exp> {
    nom::combinator::map(
        tuple((
            alt((tag(r#"\"#), tag("λ"), tag("𝜆"))),
            preceded(multispace0, variable),
            preceded(multispace0, char('.')),
            preceded(multispace0, parse_exp),
        )),
        |(_, var, _, exp)| Exp::Lambda(var, Box::new(exp)),
    )(code)
}

fn rec(code: &str) -> IResult<&str, Exp> {
    nom::combinator::map(
        tuple((
            tag("rec"),
            preceded(multispace0, variable),
            preceded(multispace0, char('=')),
            preceded(multispace0, parse_exp),
        )),
        |(_, var, _, exp)| Exp::Rec(var, Box::new(exp)),
    )(code)
}

fn parse_exp(input: &str) -> IResult<&str, Exp> {
    alt((lambda, rec, case, apply, higher_than_apply))(input)
}

fn parse(input: &str) -> Result<Exp, ()> {
    let code = remove_comment(input);
    match parse_exp(&code) {
        Ok((rest, exp)) if rest.trim() == "" => Ok(exp),
        _ => Err(()),
    }
}

fn texts() -> Vec<&'static str> {
    vec![
        "",
        " ",
        "x",
        " x",
        "x ",
        "x\u{a0}",
        "x\u{2003}\n",
        "X",
        "X()",
        "X ( )",
        "X(x,y , z)",
        "X(x,)",
        "X(,x)",
        "X(x y, z w)",
        "C(λx.x y)",
        "C(λx.x, y)",
        "f x",
        "f  x   y",
        "f\tx\r\ny",
        "f (x)",
        "f ( x)",
        "f (x )",
        "(f x) (g y)",
        "((f))",
        "( f)",
        "f (λx.x)",
        "f λx.x",
        "λx.x",
        "λ x . x",
        "\\x.x y z",
        "𝜆x.𝜆y.x",
        "λX.x",
        "λx x",
        "λx.",
        "rec x = x",
        "rec x=x",
        "recx=x",
        "rec x = x y",
        "rec",
        "rec x",
        "rec rec = rec",
        "rec_ x",
        "rec'",
        "case x of {}",
        "case x of { }",
        "case x of {;}",
        "case x of { ; }",
        "case x of {C()->x}",
        "case x of {C()->x;}",
        "case x of {C()->x;;}",
        "case x of {C()->x; D(y)->y}",
        "case x of {C()->x; D(y)->y ; }",
        "case x of {C()->x D(y)->y}",
        "case x of { C(x) → x }",
        "case x of { C(x) - > x }",
        "case x of { C(x,) → x }",
        "case x of { C(x y) → x }",
        "case x of { C (x , y) → x y }",
        "case x {C()->x}",
        "case x ofof {C()->x}",
        "case x of of {C()->x}",
        "case xof {C()->x}",
        "case of {C()->x}",
        "case {C()->x}",
        "case x of",
        "case x of {",
        "case x of }",
        "case x } of {C()->x}",
        "casex of {C()->x}",
        "case(x) of {C()->x}",
        "case f x of {C()->x}",
        "case case x of {C()->x} of {D()->y}",
        "case case x of {C()->x} of {D()->y} z",
        "case x of {C()->case y of {D()->z}}",
        "case x of {C()->case y of {D()->z}; E()->w}",
        "case c of {C()->c}",
        "case showcase of {C()->c}",
        "case showcase of {C()->c}}",
        "f case x of {C()->x}",
        "f (case x of {C()->x}) y",
        "case x of {C()->x} y",
        "(case x of {C()->x}) y",
        "x y of",
        "a-b c'd e_f",
        "a1 B2()",
        "x(y)",
        "f x) y",
        "f x; y",
        "x -- note",
        "x {- note -} y",
        "x {- a {- b -} y",
        "x - y",
        "{- all -}",
        "x -} y",
        "(rec foo = λm. λn. case m of\n { Zero() → case n of\n { Zero() → True()\n ; Suc(n) → False()\n }\n ; Suc(m) → case n of\n { Zero() → False()\n ; Suc(n) → foo m n\n }\n}) Suc(Suc(Zero())) Suc(Zero())",
        "é",
        "x é",
        "λé.x",
        "C(é)",
    ]
}

#[test]
fn readers_agree_on_concrete_texts() {
    for text in texts() {
        assert_eq!(
            chi::syntax::concrete::parser::parse(text),
            parse(text),
            "on {:?}",
            text
        );
    }
}

#[test]
fn readers_agree_on_concrete_parts() {
    for text in texts() {
        let expected = match apply(text) {
            Ok((rest, exp)) => Ok((rest.to_string(), exp)),
            Err(_) => Err(()),
        };
        assert_eq!(chi::syntax::concrete::parser::apply(text), expected, "on {:?}", text);
        let expected = match case(text) {
            Ok((rest, exp)) => Ok((rest.to_string(), exp)),
            Err(_) => Err(()),
        };
        assert_eq!(chi::syntax::concrete::parser::case(text), expected, "on {:?}", text);
        let expected = match parse_exp(text) {
            Ok((rest, exp)) => Ok((rest.to_string(), exp)),
            Err(_) => Err(()),
        };
        assert_eq!(chi::syntax::concrete::parser::parse_exp(text), expected, "on {:?}", text);
        let expected = match variable(text) {
            Ok((rest, name)) => Ok((rest.to_string(), name)),
            Err(_) => Err(()),
        };
        assert_eq!(chi::syntax::lexical::variable(text), expected, "on {:?}", text);
    }
}
