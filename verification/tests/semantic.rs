use chi::semantic::substitute::substitute;
use chi::semantic::{eval, eval_bounded};
use chi::syntax::concrete::parser::parse;
use chi::syntax::Exp;

#[test]
fn test_eval() {
    let code_sub = r#"(rec foo = 𝜆 m. 𝜆 n. case n of {
        Zero() → m;
        Suc(n) → case m of {
        Zero() → Zero();
        Suc(m) → foo m n}})
        Suc(Suc(Zero())) Suc(Zero())"#;
    let term_sub = parse(code_sub).unwrap();
    let result = eval(&term_sub);
    assert_eq!(chi::syntax::concrete::formatter::format(&result), "Suc(Zero())");

    let code = r#"case C(D(),E()) of { C(x, x) → x }"#;
    let term = parse(code).unwrap();
    let result = eval(&term);
    assert_eq!(chi::syntax::concrete::formatter::format(&result), "E()");

    let code = r#"case C(λx.x, Zero()) of { C(f, x) → f x }"#;
    let term = parse(code).unwrap();
    let result = eval(&term);
    assert_eq!(chi::syntax::concrete::formatter::format(&result), "Zero()");

    let code = r#"case (λx.x) C() of { C() → C() }"#;
    let term = parse(code).unwrap();
    let result = eval(&term);
    assert_eq!(chi::syntax::concrete::formatter::format(&result), "C()");

    let code = r#"((λx.x)(λx.x))(λx.x)"#;
    let term = parse(code).unwrap();
    let result = eval(&term);
    assert_eq!(chi::syntax::concrete::formatter::format(&result), "λx.x");

    let code = r#"((λx.x)(λx.x))(λx.x)"#;
    let term = parse(code).unwrap();
    let result = eval(&term);
    assert_eq!(chi::syntax::concrete::formatter::format(&result), "λx.x");
}

#[test]
#[should_panic]
fn test_eval_too_much_arg() {
    let code = r#"case C(C()) of { C() → C(); C(x) → x }"#;
    let term = parse(code).unwrap();
    let result = eval(&term);
    assert_eq!(chi::syntax::concrete::formatter::format(&result), "λx.x");
}

#[test]
fn test_substitute() {
    let code = r#"rec x = x"#;
    let term = parse(code).unwrap();
    let sub_term = parse("Z()").unwrap();
    let substitued = substitute(&term, "x", &sub_term);
    assert_eq!(chi::syntax::concrete::formatter::format(&substitued), "rec x = x");

    let code = r#"rec y = case x of {C() → x; D(x) → x}"#;
    let term = parse(code).unwrap();
    let substitued = substitute(
        &term,
        "x",
        &Exp::Lambda("z".to_string(), Box::new(Exp::Var("z".to_string()))),
    );
    assert_eq!(
        chi::syntax::concrete::formatter::format(&substitued),
        "rec y = case λz.z of {\n  C() -> λz.z;\n  D(x) -> x\n}"
    );

    let code = r#"case z of { C(z) → z }"#;
    let term = parse(code).unwrap();
    let sub_term = parse("C(λz.z)").unwrap();
    let substitued = substitute(&term, "z", &sub_term);
    assert_eq!(chi::syntax::concrete::formatter::format(&substitued), "case C(λz.z) of {\n  C(z) -> z\n}");
}

#[test]
fn peano_addition() {
    let code = r#"(rec add = λm.λn. case n of { Zero() → m ; Suc(n) → Suc(add m n) })
        Suc(Suc(Zero())) Suc(Zero())"#;
    let term = parse(code).unwrap();
    assert_eq!(chi::syntax::concrete::formatter::format(&eval(&term)), "Suc(Suc(Suc(Zero())))");
}

#[test]
fn evaluation_is_idempotent() {
    for code in [
        "f ((λx.x) y)",
        "case C(D()) of { C() → x; E(y) → y }",
        "C((λx.x) D(), rec y = E())",
        "λx.(λy.y) x",
    ] {
        let term = parse(code).unwrap();
        let once = eval(&term);
        assert_eq!(eval(&once), once);
    }
}

#[test]
fn stuck_terms_keep_their_parts() {
    let term = parse("f ((λx.x) y)").unwrap();
    assert_eq!(eval(&term), term);
    let term = parse("case (λx.x) z of { C() → x }").unwrap();
    assert_eq!(eval(&term), term);
}

#[test]
fn wrong_arity_is_passed_over() {
    let term = parse("case C(C()) of { C() → C(); C(x) → x }").unwrap();
    assert_eq!(chi::syntax::concrete::formatter::format(&eval(&term)), "C()");
    let term = parse("case C(C()) of { C() → C() }").unwrap();
    assert_eq!(eval(&term), term);
}

#[test]
fn self_binding_exhausts_every_budget() {
    let term = parse("rec x = x").unwrap();
    assert_eq!(eval_bounded(&term, 0), None);
    assert_eq!(eval_bounded(&term, 1), None);
    assert_eq!(eval_bounded(&term, 500), None);
}

#[test]
fn budget_counts_nested_reductions() {
    let term = parse("(λx.x) y").unwrap();
    assert_eq!(eval_bounded(&term, 1), None);
    assert_eq!(eval_bounded(&term, 2), Some(Exp::Var("y".to_string())));
    assert_eq!(eval_bounded(&term, 9), Some(Exp::Var("y".to_string())));
}

#[test]
fn substitution_leaves_absent_variable() {
    let term = parse("λy. case y of { C(x) → x; D() → z }").unwrap();
    let other = parse("E()").unwrap();
    assert_eq!(substitute(&term, "x", &other), term);
    assert_eq!(substitute(&term, "y", &other), term);
}

#[test]
fn substitution_captures() {
    let term = parse("λy. x").unwrap();
    let other = parse("y").unwrap();
    assert_eq!(chi::syntax::concrete::formatter::format(&substitute(&term, "x", &other)), "λy.y");
}
