use chi::syntax::concrete::parser::parse;

#[test]
fn formatter_test_format() {
    let term = parse("λx.x y").unwrap();
    assert_eq!(chi::syntax::concrete::formatter::format(&term), "λx.(x y)");

    let term = parse("(λx.x) y").unwrap();
    assert_eq!(chi::syntax::concrete::formatter::format(&term), "(λx.x) y");

    let term = parse("x y z").unwrap();
    assert_eq!(chi::syntax::concrete::formatter::format(&term), "x y z");

    let term = parse("x (y z)").unwrap();
    assert_eq!(chi::syntax::concrete::formatter::format(&term), "x (y z)");
}

#[test]
fn nested_cases_are_indented() {
    let term = parse("case x of { C(y) -> case y of { D() -> y; E(a, b) -> a } }").unwrap();
    assert_eq!(
        chi::syntax::concrete::formatter::format(&term),
        "case x of {\n  C(y) -> case y of {\n    D() -> y;\n    E(a, b) -> a\n  }\n}"
    );
    assert_eq!(parse(&chi::syntax::concrete::formatter::format(&term)), Ok(term));
}
