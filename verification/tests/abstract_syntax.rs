use chi::syntax::abst::formatter::format_name_list;
use chi::syntax::abst::parser::{apply, branch, case, constr, lambda, parse, rec, var};
use chi::syntax::{Branch, Exp};

#[test]
fn test_format() {
    let code = r#"rec y = case x of {C() → x; D(x) → x}"#;
    let exp = chi::syntax::concrete::parser::parse(code).unwrap();
    assert_eq!("rec y (case (var x) (\n  cons (branch C nil (var x)) (\n  cons (branch D (cons x nil) (var x)) \n  nil)))", chi::syntax::abst::formatter::format(&exp));

    let code = "𝜆 x. Suc(x)";
    let exp = chi::syntax::concrete::parser::parse(code).unwrap();
    assert_eq!(
        "lambda x (const Suc (cons (var x) nil))",
        chi::syntax::abst::formatter::format(&exp)
    );
}

#[test]
fn test_var() {
    let code = "var x";
    let result = var(code);
    assert_eq!(result, Ok(("".to_string(), Exp::Var("x".to_string()))));
}

#[test]
fn test_constr() {
    let code = "const C nil";
    let result = constr(code);
    assert_eq!(
        result,
        Ok(("".to_string(), Exp::Const("C".to_string(), vec![])))
    );

    let code = "const C (cons (var x) nil)";
    let result = constr(code);
    assert_eq!(
        result,
        Ok((
            "".to_string(),
            Exp::Const("C".to_string(), vec![Exp::Var("x".to_string())])
        ))
    );
}

#[test]
fn test_apply() {
    let code = "apply (var x) (var y)";
    let result = apply(code);
    assert_eq!(
        result,
        Ok((
            "".to_string(),
            Exp::Apply(
                Box::new(Exp::Var("x".to_string())),
                Box::new(Exp::Var("y".to_string()))
            )
        ))
    );

    let code = "apply (apply (var x) (var y)) (var z)";
    let result = apply(code);
    assert_eq!(
        result,
        Ok((
            "".to_string(),
            Exp::Apply(
                Box::new(Exp::Apply(
                    Box::new(Exp::Var("x".to_string())),
                    Box::new(Exp::Var("y".to_string())),
                )),
                Box::new(Exp::Var("z".to_string())),
            )
        ),)
    );
}

#[test]
fn test_lambda() {
    let code = "lambda x (var x)";
    let result = lambda(code);
    assert_eq!(
        result,
        Ok((
            "".to_string(),
            Exp::Lambda("x".to_string(), Box::new(Exp::Var("x".to_string())))
        ))
    );

    let code = "lambda x (apply (var x) (var y))";
    let result = lambda(code);
    assert_eq!(
        result,
        Ok((
            "".to_string(),
            Exp::Lambda(
                "x".to_string(),
                Box::new(Exp::Apply(
                    Box::new(Exp::Var("x".to_string())),
                    Box::new(Exp::Var("y".to_string()))
                ))
            )
        ))
    );
}

#[test]
fn test_branch() {
    let code = "branch C nil (var x)";
    let result = branch(code);
    assert_eq!(
        result,
        Ok((
            "".to_string(),
            Branch {
                constructor: "C".to_string(),
                parameters: vec![],
                expression: Box::new(Exp::Var("x".to_string()))
            }
        ))
    );
    let code = "branch Suc (cons n nil) (var n)";
    let result = branch(code);
    assert_eq!(
        result,
        Ok((
            "".to_string(),
            Branch {
                constructor: "Suc".to_string(),
                parameters: vec!["n".to_string()],
                expression: Box::new(Exp::Var("n".to_string()))
            }
        ))
    );
}

#[test]
fn test_case() {
    let code = "case (var n)
(cons (branch Zero nil (var x))
(cons (branch Suc (cons n nil) (var n))
nil))";
    let result = case(code);
    assert_eq!(
        result,
        Ok((
            "".to_string(),
            Exp::Case(
                Box::new(Exp::Var("n".to_string())),
                vec![
                    Branch {
                        constructor: "Zero".to_string(),
                        parameters: vec![],
                        expression: Box::new(Exp::Var("x".to_string()))
                    },
                    Branch {
                        constructor: "Suc".to_string(),
                        parameters: vec!["n".to_string()],
                        expression: Box::new(Exp::Var("n".to_string()))
                    }
                ]
            )
        ))
    );
}

#[test]
fn test_rec() {
    let code = "rec x (var x)";
    let result = rec(code);
    assert_eq!(
        result,
        Ok((
            "".to_string(),
            Exp::Rec("x".to_string(), Box::new(Exp::Var("x".to_string())))
        ))
    );
}

#[test]
fn name_lists() {
    assert_eq!(format_name_list(&[]), "nil");
    assert_eq!(format_name_list(&["x".to_string()]), "cons x nil");
    assert_eq!(
        format_name_list(&["x".to_string(), "y".to_string(), "z".to_string()]),
        "cons x (cons y (cons z nil))"
    );
}

#[test]
fn long_parts_stand_on_their_own_lines() {
    let long = chi::syntax::concrete::parser::parse("λa.λb.λc.λd.λe.a").unwrap();
    let term = Exp::Apply(Box::new(Exp::Var("f".to_string())), Box::new(long.clone()));
    assert_eq!(
        chi::syntax::abst::formatter::format(&term),
        "apply (var f) \n(lambda a (lambda b (lambda c (lambda d (lambda e (var a))))))"
    );
    let term = Exp::Apply(Box::new(long), Box::new(Exp::Var("f".to_string())));
    assert_eq!(
        chi::syntax::abst::formatter::format(&term),
        "apply \n(lambda a (lambda b (lambda c (lambda d (lambda e (var a)))))) \n(var f)"
    );
}

#[test]
fn length_is_counted_in_bytes() {
    let term = Exp::Apply(
        Box::new(Exp::Var("λλλλλλλλλλλλλλ".to_string())),
        Box::new(Exp::Var("x".to_string())),
    );
    assert_eq!(
        chi::syntax::abst::formatter::format(&term),
        "apply \n(var λλλλλλλλλλλλλλ) \n(var x)"
    );
}

#[test]
fn abstract_text_is_read_back() {
    for code in [
        "rec y = case x of {C() → x; D(x) → x}",
        "λx. (λy. y) x",
        "case f of { C(a, b) → a; D() → g }",
        "C(x, y)",
    ] {
        let term = chi::syntax::concrete::parser::parse(code).unwrap();
        let text = chi::syntax::abst::formatter::format(&term);
        assert_eq!(parse(&text), Ok(term));
    }
}

#[test]
fn abstract_constructor_takes_variables_only() {
    assert_eq!(parse("const C (cons (const D nil) nil)"), Err(()));
    assert_eq!(parse("var x y"), Err(()));
    assert_eq!(parse("var x  \n"), Ok(Exp::Var("x".to_string())));
}
