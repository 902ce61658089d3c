use chi::bootstrapping::{decompile, self_interpret, self_substitute, Context};
use chi::semantic::eval;
use chi::syntax::{Branch, Exp};

fn var(name: &str) -> Exp {
    Exp::Var(name.to_string())
}

fn lambda(name: &str, body: Exp) -> Exp {
    Exp::Lambda(name.to_string(), Box::new(body))
}

fn apply(f: Exp, x: Exp) -> Exp {
    Exp::Apply(Box::new(f), Box::new(x))
}

fn constant(name: &str, arguments: Vec<Exp>) -> Exp {
    Exp::Const(name.to_string(), arguments)
}

fn branch(constructor: &str, parameters: &[&str], body: Exp) -> Branch {
    Branch {
        constructor: constructor.to_string(),
        parameters: parameters.iter().map(|p| p.to_string()).collect(),
        expression: Box::new(body),
    }
}

fn numeral(n: usize) -> Exp {
    if n == 0 {
        constant("Zero", vec![])
    } else {
        constant("Suc", vec![numeral(n - 1)])
    }
}

fn add() -> Exp {
    Exp::Rec(
        "add".to_string(),
        Box::new(lambda(
            "m",
            lambda(
                "n",
                Exp::Case(
                    Box::new(var("n")),
                    vec![
                        branch("Zero", &[], var("m")),
                        branch(
                            "Suc",
                            &["n"],
                            constant("Suc", vec![apply(apply(var("add"), var("m")), var("n"))]),
                        ),
                    ],
                ),
            ),
        )),
    )
}

fn agrees(term: Exp) {
    let mut context = Context::new();
    let by_program = self_interpret(&term, &mut context);
    let direct = eval(&term);
    assert_eq!(by_program, decompile(&direct, &mut context));
}

#[test]
fn interpreter_adds() {
    let term = apply(apply(add(), numeral(2)), numeral(1));
    assert_eq!(eval(&term), numeral(3));
    agrees(term);
}

#[test]
fn interpreter_adds_more() {
    let term = apply(apply(add(), numeral(3)), numeral(4));
    assert_eq!(eval(&term), numeral(7));
    agrees(term);
}

#[test]
fn interpreter_keeps_stuck_terms() {
    agrees(apply(var("f"), apply(lambda("x", var("x")), var("y"))));
    agrees(Exp::Case(
        Box::new(constant("C", vec![constant("D", vec![])])),
        vec![branch("C", &[], var("x")), branch("E", &["y"], var("y"))],
    ));
    agrees(Exp::Case(Box::new(var("z")), vec![branch("C", &[], var("x"))]));
}

#[test]
fn interpreter_passes_over_wrong_arity() {
    let term = Exp::Case(
        Box::new(constant("C", vec![constant("C", vec![])])),
        vec![branch("C", &[], constant("C", vec![])), branch("C", &["x"], var("x"))],
    );
    assert_eq!(eval(&term), constant("C", vec![]));
    agrees(term);
}

#[test]
fn interpreter_binds_parameters() {
    let term = Exp::Case(
        Box::new(constant("C", vec![lambda("x", var("x")), constant("Zero", vec![])])),
        vec![branch("C", &["f", "x"], apply(var("f"), var("x")))],
    );
    assert_eq!(eval(&term), constant("Zero", vec![]));
    agrees(term);
    agrees(Exp::Case(
        Box::new(constant("C", vec![constant("D", vec![]), constant("E", vec![])])),
        vec![branch("C", &["x", "x"], var("x"))],
    ));
}

#[test]
fn substituter_stops_at_self_binding() {
    let term = Exp::Rec("x".to_string(), Box::new(var("x")));
    let mut context = Context::new();
    let result = self_substitute(&"x".to_string(), &constant("Zero", vec![]), &term, &mut context);
    assert_eq!(result, decompile(&term, &mut context));
}

#[test]
fn substituter_replaces_free_occurrences() {
    let term = lambda("x", apply(var("x"), var("y")));
    let to = lambda("x", var("x"));
    let expected = lambda("x", apply(var("x"), lambda("x", var("x"))));
    let mut context = Context::new();
    let result = self_substitute(&"y".to_string(), &to, &term, &mut context);
    assert_eq!(result, decompile(&expected, &mut context));
}

#[test]
fn substituter_respects_branch_parameters() {
    let term = Exp::Case(Box::new(var("z")), vec![branch("C", &["z"], var("z"))]);
    let to = constant("C", vec![lambda("z", var("z"))]);
    let expected = Exp::Case(Box::new(to.clone()), vec![branch("C", &["z"], var("z"))]);
    let mut context = Context::new();
    let result = self_substitute(&"z".to_string(), &to, &term, &mut context);
    assert_eq!(result, decompile(&expected, &mut context));
}
