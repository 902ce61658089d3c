use chi::bootstrapping::{decompile, number_to_exp, self_interpret, self_substitute, Context};
use chi::semantic::eval;
use chi::syntax::concrete::parser::parse;

#[test]
fn mod_test_decompile() {
    let code = "𝜆 x. Suc(x)";
    let term = parse(code).unwrap();
    let mut context = Context::default();
    let result = chi::syntax::concrete::formatter::format(&decompile(&term, &mut context)).to_string();
    assert_eq!(
        result,
        "Lambda(Zero(), Const(Zero(), Cons(Var(Zero()), Nil())))"
    );

    let code = "rec x = x";
    let term = parse(code).unwrap();
    context = Context::default();
    context.set_variable("x".to_string(), 1);
    let result = chi::syntax::concrete::formatter::format(&decompile(&term, &mut context)).to_string();
    assert_eq!(result, "Rec(Suc(Zero()), Var(Suc(Zero())))");
}

#[test]
fn bootstrapping_test_decompile() {
    let code = "𝜆 x. Suc(x)";
    let term = parse(code).unwrap();
    let mut context = Context::default();
    let result = chi::syntax::concrete::formatter::format(&decompile(&term, &mut context)).to_string();
    assert_eq!(
        result,
        "Lambda(Zero(), Const(Zero(), Cons(Var(Zero()), Nil())))"
    );

    let code = "rec x = x";
    let term = parse(code).unwrap();
    context = Context::default();
    context.set_variable("x".to_string(), 1);
    let result = chi::syntax::concrete::formatter::format(&decompile(&term, &mut context)).to_string();
    assert_eq!(result, "Rec(Suc(Zero()), Var(Suc(Zero())))");
}

fn substitute_case(code: &str, from: &str, to: &str, expected_result: &str) {
    let mut context = Context::default();
    let term = parse(code).unwrap();
    let to = parse(to).unwrap();
    let from = from.to_string();
    let result = self_substitute(&from, &to, &term, &mut context);
    let expected_result = parse(expected_result).unwrap();
    let expreced_result_nf = decompile(&expected_result, &mut context);
    assert_eq!(result, expreced_result_nf);
}

#[test]
fn test_self_substitute() {
    substitute_case("rec x = x", "x", "Zero()", "rec x = x");
    substitute_case("λx.(x y)", "y", "λx.x", "λx.(x (λx.x))");
    substitute_case(
        "case z of { C(z) → z }",
        "z",
        "C(λz.z)",
        "case C(λz.z) of { C(z) → z }",
    );
}

fn interpret_case(code: &str, expected_result: &str) {
    let mut context = Context::default();
    let term = parse(code).unwrap();
    let result = self_interpret(&term, &mut context);
    let expected_result = parse(expected_result).unwrap();
    let expected_normal_form = decompile(&expected_result, &mut context);
    assert_eq!(result, expected_normal_form);
}

#[test]
fn test_self_interpret() {
    interpret_case("case C(D(),E()) of { C(x, x) → x }", "E()");
    interpret_case("case C(λx.x, Zero()) of { C(f, x) → f x }", "Zero()");
    interpret_case("case (λx.x) C() of { C() → C() }", "C()");
    interpret_case("((λx.x) (λx.x)) (λx.x)", "λx.x");
    interpret_case(
        "(rec add = 𝜆 m. 𝜆 n. case n of {
            Zero() → m; 
            Suc(n) → Suc(add m n)
            }) (Suc(Suc(Zero()))) (Suc(Zero()))",
        "Suc(Suc(Suc(Zero())))",
    );
    interpret_case(
        "(rec add = 𝜆 m. 𝜆 n. case n of {
                Zero() → m; 
                Suc(n) → Suc(add m n)
            }) (Suc(Suc(Suc(Zero())))) (Suc(Suc(Suc(Suc(Zero())))))",
        "Suc(Suc(Suc(Suc(Suc(Suc(Suc(Zero())))))))",
    );
}

#[test]
fn encoding_twice_is_the_same() {
    let term = parse("case f C(x, y) of { D(a, b) → g a b; E() → λz. z x }").unwrap();
    let mut context = Context::new();
    let first = decompile(&term, &mut context);
    let mut variables = context.variable_assignments();
    let mut constructors = context.constructor_assignments();
    let second = decompile(&term, &mut context);
    assert_eq!(first, second);
    let mut variables_after = context.variable_assignments();
    let mut constructors_after = context.constructor_assignments();
    variables.sort();
    constructors.sort();
    variables_after.sort();
    constructors_after.sort();
    assert_eq!(variables, variables_after);
    assert_eq!(constructors, constructors_after);
}

#[test]
fn lists_are_numbered_from_the_last() {
    let term = parse("C(x, y)").unwrap();
    let mut context = Context::new();
    let result = decompile(&term, &mut context);
    assert_eq!(
        chi::syntax::concrete::formatter::format(&result),
        "Const(Zero(), Cons(Var(Suc(Zero())), Cons(Var(Zero()), Nil())))"
    );
    let mut variables = context.variable_assignments();
    variables.sort();
    assert_eq!(variables, vec![("x".to_string(), 1), ("y".to_string(), 0)]);
    assert_eq!(context.constructor_assignments(), vec![("C".to_string(), 0)]);
}

#[test]
fn branches_are_encoded_with_bare_numerals() {
    let term = parse("case x of { C(y, z) → z }").unwrap();
    let mut context = Context::new();
    assert_eq!(
        chi::syntax::concrete::formatter::format(&decompile(&term, &mut context)),
        "Case(Var(Zero()), Cons(Branch(Zero(), Cons(Suc(Suc(Zero())), Cons(Suc(Zero()), Nil())), Var(Suc(Zero()))), Nil()))"
    );
}

#[test]
fn numerals() {
    assert_eq!(chi::syntax::concrete::formatter::format(&number_to_exp(0)), "Zero()");
    assert_eq!(chi::syntax::concrete::formatter::format(&number_to_exp(3)), "Suc(Suc(Suc(Zero())))");
}

#[test]
fn allocation_keeps_and_counts() {
    let mut context = Context::new();
    assert_eq!(context.get_or_create_variable_id(&"a".to_string()), 0);
    assert_eq!(context.get_or_create_variable_id(&"b".to_string()), 1);
    assert_eq!(context.get_or_create_variable_id(&"a".to_string()), 0);
    assert_eq!(context.get_or_create_constructor_id(&"a".to_string()), 0);
    assert_eq!(context.next_variable_id(), 2);
    assert_eq!(context.next_constructor_id(), 1);
}

#[test]
fn assignment_beyond_the_counter() {
    let mut context = Context::new();
    context.set_variable("a".to_string(), 5);
    assert_eq!(context.next_variable_id(), 6);
    assert_eq!(context.next_constructor_id(), 0);
    assert_eq!(context.get_or_create_variable_id(&"a".to_string()), 5);
    assert_eq!(context.get_or_create_variable_id(&"b".to_string()), 6);
}

#[test]
fn assignment_evicts() {
    let mut context = Context::new();
    context.get_or_create_constructor_id(&"A".to_string());
    context.get_or_create_constructor_id(&"B".to_string());
    context.set_constructor("B".to_string(), 0);
    let mut constructors = context.constructor_assignments();
    constructors.sort();
    assert_eq!(constructors, vec![("A".to_string(), 2), ("B".to_string(), 0)]);
    assert_eq!(context.next_constructor_id(), 3);
}

#[test]
fn assignment_of_unused_number() {
    let mut context = Context::new();
    context.set_variable("a".to_string(), 5);
    context.set_variable("a".to_string(), 2);
    assert_eq!(context.variable_assignments(), vec![("a".to_string(), 2)]);
    assert_eq!(context.next_variable_id(), 6);
    context.set_variable("a".to_string(), 2);
    assert_eq!(context.variable_assignments(), vec![("a".to_string(), 2)]);
    assert_eq!(context.next_variable_id(), 6);
}

#[test]
fn copy_of_context_is_independent() {
    let mut context = Context::new();
    context.get_or_create_variable_id(&"a".to_string());
    let copy = context.clone();
    context.get_or_create_variable_id(&"b".to_string());
    assert_eq!(copy.variable_assignments(), vec![("a".to_string(), 0)]);
    assert_eq!(copy.next_variable_id(), 1);
}

#[test]
fn interpreter_agrees_with_evaluator() {
    for code in [
        "case C(λx.x, Zero()) of { C(f, x) → f x }",
        "f ((λx.x) y)",
        "case C(C()) of { C() → C(); C(x) → x }",
        "case C(C()) of { C() → C() }",
        "C((λx.x) D(), rec y = E())",
        "(λx. λy. x) A() B()",
    ] {
        let term = parse(code).unwrap();
        let mut context = Context::new();
        let by_program = self_interpret(&term, &mut context);
        let direct = eval(&term);
        assert_eq!(by_program, decompile(&direct, &mut context));
    }
}

#[test]
fn context_is_restored_from_listings() {
    let mut context = Context::new();
    context.set_variable("a".to_string(), 5);
    context.set_variable("a".to_string(), 2);
    context.get_or_create_constructor_id(&"C".to_string());
    let restored = Context::with_assignments(
        &context.variable_assignments(),
        context.next_variable_id(),
        &context.constructor_assignments(),
        context.next_constructor_id(),
    )
    .unwrap();
    assert_eq!(restored.variable_assignments(), vec![("a".to_string(), 2)]);
    assert_eq!(restored.next_variable_id(), 6);
    assert_eq!(restored.constructor_assignments(), vec![("C".to_string(), 0)]);
    assert_eq!(restored.next_constructor_id(), 1);
}

#[test]
fn inconsistent_listings_are_refused() {
    let pair = |name: &str, id: usize| (name.to_string(), id);
    assert!(Context::with_assignments(&vec![pair("a", 0), pair("b", 0)], 3, &vec![], 0).is_none());
    assert!(Context::with_assignments(&vec![pair("a", 0), pair("a", 1)], 3, &vec![], 0).is_none());
    assert!(Context::with_assignments(&vec![pair("a", 3)], 3, &vec![], 0).is_none());
    assert!(Context::with_assignments(&vec![], 0, &vec![pair("C", 1)], 1).is_none());
    assert!(Context::with_assignments(&vec![pair("a", 2)], 3, &vec![pair("C", 0)], 1).is_some());
}

#[test]
fn places_for_names_are_counted() {
    let term = parse("case f C(x, y) of { D(a, b) → g a b; E() → λz. z x }").unwrap();
    assert_eq!(chi::bootstrapping::count_names(&term), Some(14));
    assert!(chi::bootstrapping::has_room(&term, &Context::new()));
    let mut context = Context::new();
    context.set_variable("x".to_string(), usize::MAX - 14);
    assert!(!chi::bootstrapping::has_room(&term, &context));
    let mut context = Context::new();
    context.set_constructor("C".to_string(), usize::MAX - 16);
    assert!(chi::bootstrapping::has_room(&term, &context));
}
