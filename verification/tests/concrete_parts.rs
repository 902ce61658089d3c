use chi::syntax::concrete::parser::{
    apply, branch, branch_list, case, lambda, parse_const, parse_exp, rec,
};
use chi::syntax::lexical::{constructor, variable};
use chi::syntax::{Branch, Exp};

#[test]
fn grammar_test_parse_constructor() {
    let code = r#"C"#;
    assert_eq!(constructor(code), Ok(("".to_string(), "C".to_string())));
    let code = r#"True"#;
    assert_eq!(constructor(code), Ok(("".to_string(), "True".to_string())));
    let code = r#"false"#;
    assert!(constructor(code).is_err());
}

#[test]
fn grammar_test_parse_variable() {
    let code = r#"x"#;
    assert_eq!(variable(code), Ok(("".to_string(), "x".to_string())));
    let code = r#"x1"#;
    assert_eq!(variable(code), Ok(("".to_string(), "x1".to_string())));
    let code = r#"X"#;
    assert!(variable(code).is_err());
}

#[test]
fn test_parse_apply() {
    let code = r#"f x"#;
    assert_eq!(
        apply(code),
        Ok((
            "".to_string(),
            Exp::Apply(
                Box::new(Exp::Var("f".to_string())),
                Box::new(Exp::Var("x".to_string()))
            )
        ))
    );
}

#[test]
fn test_parse_lambda() {
    let code = r#"λx.x"#;
    assert_eq!(
        lambda(code),
        Ok((
            "".to_string(),
            Exp::Lambda("x".to_string(), Box::new(Exp::Var("x".to_string())))
        ))
    );
    let code = r#"λx.λy.x"#;
    assert_eq!(
        lambda(code),
        Ok((
            "".to_string(),
            Exp::Lambda(
                "x".to_string(),
                Box::new(Exp::Lambda(
                    "y".to_string(),
                    Box::new(Exp::Var("x".to_string()))
                ))
            )
        ))
    );
}

#[test]
fn test_parse_const() {
    let code = r#"C()"#;
    assert_eq!(
        parse_const(code),
        Ok(("".to_string(), Exp::Const("C".to_string(), vec![])))
    );
    let code = r#"C(x)"#;
    assert_eq!(
        parse_const(code),
        Ok((
            "".to_string(),
            Exp::Const("C".to_string(), vec![Exp::Var("x".to_string())])
        ))
    );
    let code = r#"C(x, y)"#;
    assert_eq!(
        parse_const(code),
        Ok((
            "".to_string(),
            Exp::Const(
                "C".to_string(),
                vec![Exp::Var("x".to_string()), Exp::Var("y".to_string())]
            )
        ))
    );
    let code = r#"C(λx.x, y)"#;
    assert_eq!(
        parse_const(code),
        Ok((
            "".to_string(),
            Exp::Const(
                "C".to_string(),
                vec![
                    Exp::Lambda("x".to_string(), Box::new(Exp::Var("x".to_string()))),
                    Exp::Var("y".to_string())
                ]
            )
        ))
    );
}

#[test]
fn grammar_test_rec() {
    let code = r#"rec x = λy.y"#;
    assert_eq!(
        rec(code),
        Ok((
            "".to_string(),
            Exp::Rec(
                "x".to_string(),
                Box::new(Exp::Lambda(
                    "y".to_string(),
                    Box::new(Exp::Var("y".to_string()))
                ))
            )
        ))
    );
}

#[test]
fn test_parse_branch() {
    let code = r#"C(x) -> x"#;
    assert_eq!(
        branch(code),
        Ok((
            "".to_string(),
            Branch {
                constructor: "C".to_string(),
                parameters: vec!["x".to_string()],
                expression: Box::new(Exp::Var("x".to_string()))
            }
        ))
    );
    let code = r#"C(x, y) -> x"#;
    assert_eq!(
        branch(code),
        Ok((
            "".to_string(),
            Branch {
                constructor: "C".to_string(),
                parameters: vec!["x".to_string(), "y".to_string()],
                expression: Box::new(Exp::Var("x".to_string()))
            }
        ))
    );
}

#[test]
fn test_branch_list() {
    let code = r#"{ C(x) -> x; C(y) -> y }"#;
    assert_eq!(
        branch_list(code),
        Ok((
            "".to_string(),
            vec![
                Branch {
                    constructor: "C".to_string(),
                    parameters: vec!["x".to_string()],
                    expression: Box::new(Exp::Var("x".to_string()))
                },
                Branch {
                    constructor: "C".to_string(),
                    parameters: vec!["y".to_string()],
                    expression: Box::new(Exp::Var("y".to_string()))
                }
            ]
        ))
    );
}

#[test]
fn test_parse_case() {
    let code = r#"case x of { C(x) -> x; C(y) -> y }"#;
    assert_eq!(
        case(code),
        Ok((
            "".to_string(),
            Exp::Case(
                Box::new(Exp::Var("x".to_string())),
                vec![
                    Branch {
                        constructor: "C".to_string(),
                        parameters: vec!["x".to_string()],
                        expression: Box::new(Exp::Var("x".to_string()))
                    },
                    Branch {
                        constructor: "C".to_string(),
                        parameters: vec!["y".to_string()],
                        expression: Box::new(Exp::Var("y".to_string()))
                    }
                ]
            )
        ))
    );
    let code = r#"case case y of { C(x) -> x; C(y) -> y } of { C(z) -> z; C(w) -> w } D(q)"#;
    let result = case(code);
    let shape = match result {
        Ok((rest, Exp::Case(scrutinee, _))) => rest == " D(q)" && matches!(*scrutinee, Exp::Case(..)),
        _ => false,
    };
    assert!(shape);
}

#[test]
fn grammar_test_parse() {
    let code = r#"rec foo = λm. λn. case m of
            { Zero() → case n of
              { Zero() → True()
                ; Suc(n) → False()
              }
            ; Suc(m) → case n of
              { Zero() → False()
              ; Suc(n) → foo m n
              }
            }"#;
    let result = parse_exp(code);
    let shape = match result {
        Ok((rest, Exp::Rec(_, first))) => match *first {
            Exp::Lambda(_, second) => match *second {
                Exp::Lambda(_, body) => rest.is_empty() && matches!(*body, Exp::Case(..)),
                _ => false,
            },
            _ => false,
        },
        _ => false,
    };
    assert!(shape);
}

#[test]
fn test_t() {
    let code = r#"(rec x = x y)"#;
    let result = parse_exp(code);
    println!(
        "{}",
        chi::syntax::concrete::formatter::format(&result.unwrap().1)
    );
}
