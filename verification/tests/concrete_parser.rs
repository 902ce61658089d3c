use chi::syntax::concrete::parser::{apply, case, lambda, parse, parse_const, rec};
use chi::syntax::lexical::{constructor, variable};
use chi::syntax::{Branch, Exp};

#[test]
fn mod_test_parse_constructor() {
    let code = "Foo";
    let (_, constr) = constructor(code).unwrap();
    assert_eq!(constr, "Foo");

    let code = "Foo_bar";
    let (_, constr) = constructor(code).unwrap();
    assert_eq!(constr, "Foo_bar");

    let code = "Foo'bar";
    let (_, constr) = constructor(code).unwrap();
    assert_eq!(constr, "Foo'bar");

    let code = "foo";
    assert!(matches!(constructor(code), Err(_)));
}

#[test]
fn mod_test_parse_variable() {
    let code = "foo";
    let (_, var) = variable(code).unwrap();
    assert_eq!(var, "foo");

    let code = "foo_bar";
    let (_, var) = variable(code).unwrap();
    assert_eq!(var, "foo_bar");

    let code = "foo'bar";
    let (_, var) = variable(code).unwrap();
    assert_eq!(var, "foo'bar");

    let code = "Foo";
    assert!(matches!(variable(code), Err(_)));
}

#[test]
fn test_const() {
    let code = "C()";
    let (_, constr) = parse_const(code).unwrap();
    assert_eq!(constr, Exp::Const("C".to_string(), vec![]));
    let code = "C(x)";
    let (_, constr) = parse_const(code).unwrap();
    assert_eq!(
        constr,
        Exp::Const("C".to_string(), vec![Exp::Var("x".to_string())])
    );
    let code = "C(x,y)";
    let (_, constr) = parse_const(code).unwrap();
    assert_eq!(
        constr,
        Exp::Const(
            "C".to_string(),
            vec![Exp::Var("x".to_string()), Exp::Var("y".to_string())]
        )
    );
    let code = "C(λx.x y)";
    let (_, constr) = parse_const(code).unwrap();
    assert_eq!(
        constr,
        Exp::Const(
            "C".to_string(),
            vec![Exp::Lambda(
                "x".to_string(),
                Box::new(Exp::Apply(
                    Box::new(Exp::Var("x".to_string())),
                    Box::new(Exp::Var("y".to_string()))
                ))
            )]
        )
    );
}

#[test]
fn parser_test_case() {
    let code = r#"case x of {}"#;
    let (_, case_stmt) = case(code).unwrap();
    assert_eq!(
        case_stmt,
        Exp::Case(Box::new(Exp::Var("x".to_string())), vec![])
    );
    let code = r#"case x of {C(x)->x}"#;
    let (_, case_stmt) = case(code).unwrap();
    assert_eq!(
        case_stmt,
        Exp::Case(
            Box::new(Exp::Var("x".to_string())),
            vec![Branch {
                constructor: "C".to_string(),
                parameters: vec!["x".to_string()],
                expression: Box::new(Exp::Var("x".to_string()))
            }]
        )
    );
    let code = r#"case ((\x.x) y) of {C(x,y)->x; D(x,y)->y}"#;
    let (_, case_stmt) = case(code).unwrap();
    assert_eq!(
        case_stmt,
        Exp::Case(
            Box::new(Exp::Apply(
                Box::new(Exp::Lambda(
                    "x".to_string(),
                    Box::new(Exp::Var("x".to_string()))
                )),
                Box::new(Exp::Var("y".to_string()))
            )),
            vec![
                Branch {
                    constructor: "C".to_string(),
                    parameters: vec!["x".to_string(), "y".to_string()],
                    expression: Box::new(Exp::Var("x".to_string()))
                },
                Branch {
                    constructor: "D".to_string(),
                    parameters: vec!["x".to_string(), "y".to_string()],
                    expression: Box::new(Exp::Var("y".to_string()))
                }
            ]
        )
    );
}

#[test]
fn parser_test_apply() {
    let code = r#"(\x.x) y"#;
    let (_, exp) = apply(code).unwrap();
    assert_eq!(
        exp,
        Exp::Apply(
            Box::new(Exp::Lambda(
                "x".to_string(),
                Box::new(Exp::Var("x".to_string()))
            )),
            Box::new(Exp::Var("y".to_string()))
        )
    );
    let code = r#"x y z"#;
    let (_, exp) = apply(code).unwrap();
    assert_eq!(
        exp,
        Exp::Apply(
            Box::new(Exp::Apply(
                Box::new(Exp::Var("x".to_string())),
                Box::new(Exp::Var("y".to_string()))
            )),
            Box::new(Exp::Var("z".to_string()))
        )
    );
}

#[test]
fn parser_test_lambda() {
    let code = r#"\x.x"#;
    let (_, exp) = lambda(code).unwrap();
    assert_eq!(
        exp,
        Exp::Lambda("x".to_string(), Box::new(Exp::Var("x".to_string())))
    );
    let code = r#"\x.y x"#;
    let (_, exp) = lambda(code).unwrap();
    assert_eq!(
        exp,
        Exp::Lambda(
            "x".to_string(),
            Box::new(Exp::Apply(
                Box::new(Exp::Var("y".to_string())),
                Box::new(Exp::Var("x".to_string()))
            ))
        )
    );
}

#[test]
fn parser_test_rec() {
    let code = r#"rec x = x"#;
    let (_, exp) = rec(code).unwrap();
    assert_eq!(
        exp,
        Exp::Rec("x".to_string(), Box::new(Exp::Var("x".to_string())))
    );
    let code = r#"rec x = y x"#;
    let (_, exp) = rec(code).unwrap();
    assert_eq!(
        exp,
        Exp::Rec(
            "x".to_string(),
            Box::new(Exp::Apply(
                Box::new(Exp::Var("y".to_string())),
                Box::new(Exp::Var("x".to_string()))
            ))
        )
    );
}

#[test]
fn parser_test_parse() {
    let code = r#"(rec foo = λm. λn. case m of
            { Zero() → case n of
              { Zero() → True()
              ; Suc(n) → False()
              }
            ; Suc(m) → case n of
              { Zero() → False()
              ; Suc(n) → foo m n
              }
}) Suc(Suc(Zero())) Suc(Zero())"#;
    let parsed = parse(code).unwrap();
    let shape = match parsed {
        Exp::Apply(f, x) => match (*f, *x) {
            (Exp::Apply(g, y), Exp::Const(_, _)) => {
                matches!((*g, *y), (Exp::Rec(_, _), Exp::Const(_, _)))
            }
            _ => false,
        },
        _ => false,
    };
    assert!(shape);
}

#[test]
fn rest_of_text_is_returned() {
    assert_eq!(
        apply("f x) y"),
        Ok((
            ") y".to_string(),
            Exp::Apply(
                Box::new(Exp::Var("f".to_string())),
                Box::new(Exp::Var("x".to_string()))
            )
        ))
    );
    assert_eq!(variable("ab-c'd_9 e"), Ok((" e".to_string(), "ab-c'd_9".to_string())));
}

#[test]
fn text_must_be_one_term() {
    assert_eq!(parse("x )"), Err(()));
    assert_eq!(parse(""), Err(()));
    assert_eq!(parse("( x)"), Err(()));
    assert_eq!(parse("x \u{a0}\n"), Ok(Exp::Var("x".to_string())));
    assert_eq!(parse("case x } {}"), Err(()));
}

#[test]
fn comments_are_no_part_of_the_term() {
    assert_eq!(
        parse("f {- the function -} x -- the argument"),
        Ok(Exp::Apply(
            Box::new(Exp::Var("f".to_string())),
            Box::new(Exp::Var("x".to_string()))
        ))
    );
}
