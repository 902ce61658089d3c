//! The two programs of the calculus that work on encoded terms: one
//! substitutes, the other evaluates.
//!
//! Each program is given twice, as the mathematical term and as the
//! function that builds it, piece by piece. The programs follow the
//! evaluator of this library on encoded terms: substitution stops at
//! binders and renames nothing, a stuck application or case expression is
//! returned as it was given, and a case expression takes the first branch
//! whose constructor and number of parameters fit.

use crate::bootstrapping::builders::{
    apply, apply2, apply3, branch0, branch1, branch2, branch3, branches1, branches2, branches6,
    case_of, data0, data1, data2, data3, lambda, rec, var,
};
use crate::syntax::{arms_of, Arm, Branch, Exp, Term};
use vstd::prelude::*;

verus! {

/// The variable `name`.
pub open spec fn v(name: Seq<char>) -> Term {
    Term::Var(name)
}

/// The abstraction of `name` over `body`.
pub open spec fn lam(name: Seq<char>, body: Term) -> Term {
    Term::Lambda(name, Box::new(body))
}

/// The recursive binding of `name` to `body`.
pub open spec fn fix(name: Seq<char>, body: Term) -> Term {
    Term::Rec(name, Box::new(body))
}

/// The application of `f` to `a`.
pub open spec fn app(f: Term, a: Term) -> Term {
    Term::Apply(Box::new(f), Box::new(a))
}

/// The application of `f` to `a` and then to `b`.
pub open spec fn app2(f: Term, a: Term, b: Term) -> Term {
    app(app(f, a), b)
}

/// The application of `f` to `a`, then to `b`, then to `c`.
pub open spec fn app3(f: Term, a: Term, b: Term, c: Term) -> Term {
    app(app(app(f, a), b), c)
}

/// The case expression on `scrutinee` with the given branches.
pub open spec fn cases(scrutinee: Term, arms: Seq<Arm>) -> Term {
    Term::Case(Box::new(scrutinee), arms)
}

/// The branch for `constructor` with the given parameters and body.
pub open spec fn arm(constructor: Seq<char>, parameters: Seq<Seq<char>>, body: Term) -> Arm {
    Arm { constructor, parameters, expression: Box::new(body) }
}

/// The constructor `name` applied to the given arguments.
pub open spec fn con(name: Seq<char>, arguments: Seq<Term>) -> Term {
    Term::Const(name, arguments)
}

/// The six branches of a case expression on the kind of an encoded term
/// that all stand for the same body but the one for abstractions.
pub open spec fn unless_lambda(on_lambda: Arm, otherwise: Term) -> Seq<Arm> {
    seq![
        on_lambda,
        arm("Var"@, seq!["y"@], otherwise),
        arm("Apply"@, seq!["g"@, "h"@], otherwise),
        arm("Const"@, seq!["k"@, "es"@], otherwise),
        arm("Case"@, seq!["s"@, "bs"@], otherwise),
        arm("Rec"@, seq!["y"@, "b"@], otherwise),
    ]
}

/// The six branches of a case expression on the kind of an encoded term
/// that all stand for the same body but the one for constructor
/// applications.
pub open spec fn unless_const(on_const: Arm, otherwise: Term) -> Seq<Arm> {
    seq![
        on_const,
        arm("Var"@, seq!["y"@], otherwise),
        arm("Apply"@, seq!["g"@, "h"@], otherwise),
        arm("Lambda"@, seq!["y"@, "b"@], otherwise),
        arm("Case"@, seq!["r"@, "cs"@], otherwise),
        arm("Rec"@, seq!["y"@, "b"@], otherwise),
    ]
}

/// The truth value `True()` or `False()`.
pub open spec fn truth(holds: bool) -> Term {
    if holds {
        con("True"@, seq![])
    } else {
        con("False"@, seq![])
    }
}

/// The body of the program that compares numerals: a case on `first`, and
/// in its branches a case on `second` and on `third`, where `recur` stands
/// for the program in the call on the numbers before the two.
pub open spec fn same_number_body(recur: Term, first: Term, second: Term, third: Term) -> Term {
    cases(
        first,
        seq![
            arm(
                "Zero"@,
                seq![],
                cases(
                    second,
                    seq![
                        arm("Zero"@, seq![], truth(true)),
                        arm("Suc"@, seq!["n"@], truth(false)),
                    ],
                ),
            ),
            arm(
                "Suc"@,
                seq!["m"@],
                cases(
                    third,
                    seq![
                        arm("Zero"@, seq![], truth(false)),
                        arm("Suc"@, seq!["n"@], app2(recur, v("m"@), v("n"@))),
                    ],
                ),
            ),
        ],
    )
}

/// Whether two numerals are the same: `True()` or `False()`.
pub open spec fn same_number() -> Term {
    fix(
        "same"@,
        lam(
            "m"@,
            lam("n"@, same_number_body(v("same"@), v("m"@), v("n"@), v("n"@))),
        ),
    )
}

/// The body of the program that looks for a numeral in a list: a case on
/// the list `items`, where `wanted` stands for the numeral and `recur` for
/// the program in the call on the rest of the list.
pub open spec fn member_body(recur: Term, wanted: Term, items: Term) -> Term {
    cases(
        items,
        seq![
            arm("Nil"@, seq![], truth(false)),
            arm(
                "Cons"@,
                seq!["m"@, "ms"@],
                cases(
                    app2(same_number(), wanted, v("m"@)),
                    seq![
                        arm("True"@, seq![], truth(true)),
                        arm("False"@, seq![], app2(recur, wanted, v("ms"@))),
                    ],
                ),
            ),
        ],
    )
}

/// Whether a numeral is in a list of numerals: `True()` or `False()`.
pub open spec fn member() -> Term {
    fix(
        "member"@,
        lam("n"@, lam("ns"@, member_body(v("member"@), v("n"@), v("ns"@)))),
    )
}

/// The body of the program that maps a function over a list: a case on the
/// list `items`, where `function` stands for the function and `recur` for
/// the program in the call on the rest of the list.
pub open spec fn map_body(recur: Term, function: Term, items: Term) -> Term {
    cases(
        items,
        seq![
            arm("Nil"@, seq![], con("Nil"@, seq![])),
            arm(
                "Cons"@,
                seq!["y"@, "ys"@],
                con(
                    "Cons"@,
                    seq![app(function, v("y"@)), app2(recur, function, v("ys"@))],
                ),
            ),
        ],
    )
}

/// The list of what a function gives for each item of a list.
pub open spec fn map_list() -> Term {
    fix("map"@, lam("f"@, lam("xs"@, map_body(v("map"@), v("f"@), v("xs"@)))))
}

/// What stands for an encoded branch with the constructor `c`, the
/// parameters `ps` and the body `b` under substitution: the branch as it is
/// where the variable is among the parameters, and the branch with the
/// substituted body otherwise.
pub open spec fn at_branch(variable: Term, recur: Term, c: Term, ps: Term, b: Term) -> Term {
    cases(
        app2(member(), variable, ps),
        seq![
            arm("True"@, seq![], con("Branch"@, seq![c, ps, b])),
            arm("False"@, seq![], con("Branch"@, seq![c, ps, app(recur, b)])),
        ],
    )
}

/// Substitution in an encoded branch, where `variable` stands for the
/// numeral of the variable and `recur` for the function that substitutes in
/// a term.
pub open spec fn in_branch(variable: Term, recur: Term) -> Term {
    lam(
        "br"@,
        cases(
            v("br"@),
            seq![
                arm(
                    "Branch"@,
                    seq!["c"@, "ps"@, "b"@],
                    at_branch(variable, recur, v("c"@), v("ps"@), v("b"@)),
                ),
            ],
        ),
    )
}

/// What stands for an encoded binder `kind` of `y` over `b` under
/// substitution: the binder as it is where `y` is the variable, and the
/// binder over the substituted body otherwise.
pub open spec fn under_binder(
    kind: Seq<char>,
    variable: Term,
    recur: Term,
    y: Term,
    b: Term,
) -> Term {
    cases(
        app2(same_number(), variable, y),
        seq![
            arm("True"@, seq![], con(kind, seq![y, b])),
            arm("False"@, seq![], con(kind, seq![y, app(recur, b)])),
        ],
    )
}

/// What stands for an encoded variable `y` under substitution: the
/// replacement where `y` is the variable, and `y` otherwise.
pub open spec fn at_variable(variable: Term, replacement: Term, y: Term) -> Term {
    cases(
        app2(same_number(), variable, y),
        seq![
            arm("True"@, seq![], replacement),
            arm("False"@, seq![], con("Var"@, seq![y])),
        ],
    )
}

/// What stands for an encoded application of `f` to `a` under
/// substitution.
pub open spec fn at_application(recur: Term, f: Term, a: Term) -> Term {
    con("Apply"@, seq![app(recur, f), app(recur, a)])
}

/// What stands for an encoded constructor `c` applied to `es` under
/// substitution.
pub open spec fn at_constructor(recur: Term, c: Term, es: Term) -> Term {
    con("Const"@, seq![c, app2(map_list(), recur, es)])
}

/// What stands for an encoded case expression on `s` with the branches
/// `bs` under substitution.
pub open spec fn at_case(variable: Term, recur: Term, s: Term, bs: Term) -> Term {
    con("Case"@, seq![app(recur, s), app2(map_list(), in_branch(variable, recur), bs)])
}

/// The six branches of the substitution program.
pub open spec fn substituter_arms(variable: Term, replacement: Term, recur: Term) -> Seq<Arm> {
    seq![
        arm("Var"@, seq!["y"@], at_variable(variable, replacement, v("y"@))),
        arm("Apply"@, seq!["f"@, "a"@], at_application(recur, v("f"@), v("a"@))),
        arm(
            "Lambda"@,
            seq!["y"@, "b"@],
            under_binder("Lambda"@, variable, recur, v("y"@), v("b"@)),
        ),
        arm("Rec"@, seq!["y"@, "b"@], under_binder("Rec"@, variable, recur, v("y"@), v("b"@))),
        arm("Const"@, seq!["c"@, "es"@], at_constructor(recur, v("c"@), v("es"@))),
        arm("Case"@, seq!["s"@, "bs"@], at_case(variable, recur, v("s"@), v("bs"@))),
    ]
}

/// The body of the substitution program: a case on the encoded term
/// `subject`.
pub open spec fn substituter_body(
    variable: Term,
    replacement: Term,
    recur: Term,
    subject: Term,
) -> Term {
    cases(subject, substituter_arms(variable, replacement, recur))
}

/// The function that substitutes in an encoded term, for a given variable
/// and replacement.
pub open spec fn substituter_loop(variable: Term, replacement: Term) -> Term {
    fix(
        "go"@,
        lam("e"@, substituter_body(variable, replacement, v("go"@), v("e"@))),
    )
}

/// The substitution program: applied to the numeral of a variable, an
/// encoded replacement and an encoded term, it gives the encoded term with
/// the replacement in place of the free occurrences of the variable.
pub open spec fn substituter() -> Term {
    lam("x"@, lam("t"@, substituter_loop(v("x"@), v("t"@))))
}

/// The body of the program that compares the lengths of two lists: a case
/// on the list `first`, and in its branches a case on `second` and on
/// `third`, where `recur` stands for the program in the call on the rests
/// of the two lists.
pub open spec fn same_length_body(recur: Term, first: Term, second: Term, third: Term) -> Term {
    cases(
        first,
        seq![
            arm(
                "Nil"@,
                seq![],
                cases(
                    second,
                    seq![
                        arm("Nil"@, seq![], truth(true)),
                        arm("Cons"@, seq!["y"@, "yt"@], truth(false)),
                    ],
                ),
            ),
            arm(
                "Cons"@,
                seq!["x"@, "xt"@],
                cases(
                    third,
                    seq![
                        arm("Nil"@, seq![], truth(false)),
                        arm("Cons"@, seq!["y"@, "yt"@], app2(recur, v("xt"@), v("yt"@))),
                    ],
                ),
            ),
        ],
    )
}

/// Whether two lists are equally long: `True()` or `False()`.
pub open spec fn same_length() -> Term {
    fix(
        "same"@,
        lam(
            "xs"@,
            lam("ys"@, same_length_body(v("same"@), v("xs"@), v("ys"@), v("ys"@))),
        ),
    )
}

/// What the lookup does with an encoded branch of the constructor `k`, the
/// parameters `ps` and the body `b`: `Found` where `k` is the constructor
/// `c` and `ps` is as long as `vs`, and the lookup in the rest of the list
/// otherwise.
pub open spec fn lookup_branch(
    recur: Term,
    c: Term,
    vs: Term,
    rest: Term,
    k: Term,
    ps: Term,
    b: Term,
) -> Term {
    cases(
        app2(same_number(), c, k),
        seq![
            arm("False"@, seq![], app3(recur, c, vs, rest)),
            arm(
                "True"@,
                seq![],
                cases(
                    app2(same_length(), ps, vs),
                    seq![
                        arm("True"@, seq![], con("Found"@, seq![ps, b])),
                        arm("False"@, seq![], app3(recur, c, vs, rest)),
                    ],
                ),
            ),
        ],
    )
}

/// What the lookup does with a list that begins with the encoded branch
/// `br`.
pub open spec fn lookup_cons(recur: Term, c: Term, vs: Term, br: Term, rest: Term) -> Term {
    cases(
        br,
        seq![
            arm(
                "Branch"@,
                seq!["k"@, "ps"@, "b"@],
                lookup_branch(recur, c, vs, rest, v("k"@), v("ps"@), v("b"@)),
            ),
        ],
    )
}

/// The body of the lookup: a case on the list of encoded branches `bs`.
pub open spec fn lookup_body(recur: Term, c: Term, vs: Term, bs: Term) -> Term {
    cases(
        bs,
        seq![
            arm("Nil"@, seq![], con("Missing"@, seq![])),
            arm(
                "Cons"@,
                seq!["br"@, "rest"@],
                lookup_cons(recur, c, vs, v("br"@), v("rest"@)),
            ),
        ],
    )
}

/// The first branch of a list that fits a constructor and a list of
/// arguments: `Found` with its parameters and body, or `Missing()`.
pub open spec fn lookup() -> Term {
    fix(
        "lookup"@,
        lam(
            "c"@,
            lam(
                "vs"@,
                lam("bs"@, lookup_body(v("lookup"@), v("c"@), v("vs"@), v("bs"@))),
            ),
        ),
    )
}

/// The substitution of the value `w` for the parameter `p` in what binding
/// the other parameters gives.
pub open spec fn binder_call(recur: Term, b: Term, p: Term, pt: Term, w: Term, wt: Term) -> Term {
    app3(substituter(), p, w, app3(recur, pt, wt, b))
}

/// What binding does with a list of parameters that begins with `p`: a
/// case on the list of values `vs`.
pub open spec fn binder_cons(recur: Term, vs: Term, b: Term, p: Term, pt: Term) -> Term {
    cases(
        vs,
        seq![
            arm("Nil"@, seq![], b),
            arm(
                "Cons"@,
                seq!["w"@, "wt"@],
                binder_call(recur, b, p, pt, v("w"@), v("wt"@)),
            ),
        ],
    )
}

/// The body of binding: a case on the list of parameters `ps`.
pub open spec fn binder_body(recur: Term, ps: Term, vs: Term, b: Term) -> Term {
    cases(
        ps,
        seq![
            arm("Nil"@, seq![], b),
            arm("Cons"@, seq!["p"@, "pt"@], binder_cons(recur, vs, b, v("p"@), v("pt"@))),
        ],
    )
}

/// The body with the parameters of a list bound to the values of a list
/// that is equally long, the last parameter substituted first.
pub open spec fn binder() -> Term {
    fix(
        "bind"@,
        lam(
            "ps"@,
            lam("vs"@, lam("b"@, binder_body(v("bind"@), v("ps"@), v("vs"@), v("b"@)))),
        ),
    )
}

/// The evaluation of the body `b` of an abstraction of `x`, with the value
/// of the argument `a` in place of `x`.
pub open spec fn beta(recur: Term, x: Term, a: Term, b: Term) -> Term {
    app(recur, app3(substituter(), x, app(recur, a), b))
}

/// What the interpreter does with an encoded application of `f` to `a`:
/// where `f` has an abstraction as its value, the body is evaluated with
/// the value of `a` in place of its parameter; otherwise the application is
/// given back.
pub open spec fn on_apply(recur: Term, f: Term, a: Term) -> Term {
    cases(
        app(recur, f),
        unless_lambda(
            arm("Lambda"@, seq!["x"@, "b"@], beta(recur, v("x"@), a, v("b"@))),
            con("Apply"@, seq![f, a]),
        ),
    )
}

/// What the interpreter does with an encoded recursive binding of `x` to
/// `b`: the body is evaluated with the binding in place of `x`.
pub open spec fn on_rec(recur: Term, x: Term, b: Term) -> Term {
    app(recur, app3(substituter(), x, con("Rec"@, seq![x, b]), b))
}

/// What the interpreter does with the value `c` applied to `vs` of the
/// scrutinee `s` of a case expression with the branches `bs`: the body of
/// the first branch that fits is evaluated with the values in place of the
/// parameters, and the case expression is given back where none fits.
pub open spec fn dispatch(recur: Term, c: Term, vs: Term, bs: Term, s: Term) -> Term {
    cases(
        app3(lookup(), c, vs, bs),
        seq![
            arm(
                "Found"@,
                seq!["ps"@, "b"@],
                app(recur, app3(binder(), v("ps"@), vs, v("b"@))),
            ),
            arm("Missing"@, seq![], con("Case"@, seq![s, bs])),
        ],
    )
}

/// What the interpreter does with an encoded case expression on `s` with
/// the branches `bs`.
pub open spec fn on_case(recur: Term, s: Term, bs: Term) -> Term {
    cases(
        app(recur, s),
        unless_const(
            arm("Const"@, seq!["c"@, "vs"@], dispatch(recur, v("c"@), v("vs"@), bs, s)),
            con("Case"@, seq![s, bs]),
        ),
    )
}

/// The six branches of the interpreter.
pub open spec fn interpreter_arms(recur: Term) -> Seq<Arm> {
    seq![
        arm("Var"@, seq!["x"@], con("Var"@, seq![v("x"@)])),
        arm("Lambda"@, seq!["x"@, "b"@], con("Lambda"@, seq![v("x"@), v("b"@)])),
        arm("Apply"@, seq!["f"@, "a"@], on_apply(recur, v("f"@), v("a"@))),
        arm("Const"@, seq!["c"@, "es"@], at_constructor(recur, v("c"@), v("es"@))),
        arm("Rec"@, seq!["x"@, "b"@], on_rec(recur, v("x"@), v("b"@))),
        arm("Case"@, seq!["s"@, "bs"@], on_case(recur, v("s"@), v("bs"@))),
    ]
}

/// The body of the interpreter: a case on the encoded term `subject`.
pub open spec fn interpreter_body(recur: Term, subject: Term) -> Term {
    cases(subject, interpreter_arms(recur))
}

/// The interpreter program: applied to an encoded term, it gives the
/// encoded normal form of the term.
pub open spec fn interpreter() -> Term {
    fix("eval"@, lam("e"@, interpreter_body(v("eval"@), v("e"@))))
}

fn build_unless_lambda(on_lambda: Branch, otherwise: &Exp) -> (result: Vec<Branch>)
    ensures
        arms_of(result@) == unless_lambda(on_lambda@, otherwise@),
{
    branches6(
        on_lambda,
        branch1("Var", "y", otherwise.clone()),
        branch2("Apply", "g", "h", otherwise.clone()),
        branch2("Const", "k", "es", otherwise.clone()),
        branch2("Case", "s", "bs", otherwise.clone()),
        branch2("Rec", "y", "b", otherwise.clone()),
    )
}

fn build_unless_const(on_const: Branch, otherwise: &Exp) -> (result: Vec<Branch>)
    ensures
        arms_of(result@) == unless_const(on_const@, otherwise@),
{
    branches6(
        on_const,
        branch1("Var", "y", otherwise.clone()),
        branch2("Apply", "g", "h", otherwise.clone()),
        branch2("Lambda", "y", "b", otherwise.clone()),
        branch2("Case", "r", "cs", otherwise.clone()),
        branch2("Rec", "y", "b", otherwise.clone()),
    )
}

fn build_same_number() -> (result: Exp)
    ensures
        result@ == same_number(),
{
    let on_zero = case_of(
        var("n"),
        branches2(branch0("Zero", data0("True")), branch1("Suc", "n", data0("False"))),
    );
    let on_suc = case_of(
        var("n"),
        branches2(
            branch0("Zero", data0("False")),
            branch1("Suc", "n", apply2(var("same"), var("m"), var("n"))),
        ),
    );
    rec(
        "same",
        lambda(
            "m",
            lambda(
                "n",
                case_of(
                    var("m"),
                    branches2(branch0("Zero", on_zero), branch1("Suc", "m", on_suc)),
                ),
            ),
        ),
    )
}

fn build_member() -> (result: Exp)
    ensures
        result@ == member(),
{
    let on_cons = case_of(
        apply2(build_same_number(), var("n"), var("m")),
        branches2(
            branch0("True", data0("True")),
            branch0("False", apply2(var("member"), var("n"), var("ms"))),
        ),
    );
    rec(
        "member",
        lambda(
            "n",
            lambda(
                "ns",
                case_of(
                    var("ns"),
                    branches2(branch0("Nil", data0("False")), branch2("Cons", "m", "ms", on_cons)),
                ),
            ),
        ),
    )
}

fn build_map_list() -> (result: Exp)
    ensures
        result@ == map_list(),
{
    let on_cons = data2(
        "Cons",
        apply(var("f"), var("y")),
        apply2(var("map"), var("f"), var("ys")),
    );
    rec(
        "map",
        lambda(
            "f",
            lambda(
                "xs",
                case_of(
                    var("xs"),
                    branches2(branch0("Nil", data0("Nil")), branch2("Cons", "y", "ys", on_cons)),
                ),
            ),
        ),
    )
}

fn build_substitute_in_branch() -> (result: Exp)
    ensures
        result@ == in_branch(v("x"@), v("go"@)),
{
    let on_branch = case_of(
        apply2(build_member(), var("x"), var("ps")),
        branches2(
            branch0("True", data3("Branch", var("c"), var("ps"), var("b"))),
            branch0("False", data3("Branch", var("c"), var("ps"), apply(var("go"), var("b")))),
        ),
    );
    lambda("br", case_of(var("br"), branches1(branch3("Branch", "c", "ps", "b", on_branch))))
}

fn build_under_binder(kind: &str) -> (result: Exp)
    ensures
        result@ == under_binder(kind@, v("x"@), v("go"@), v("y"@), v("b"@)),
{
    case_of(
        apply2(build_same_number(), var("x"), var("y")),
        branches2(
            branch0("True", data2(kind, var("y"), var("b"))),
            branch0("False", data2(kind, var("y"), apply(var("go"), var("b")))),
        ),
    )
}

/// Builds the substitution program.
pub fn self_substituter() -> (result: Exp)
    ensures
        result@ == substituter(),
{
    let on_var = case_of(
        apply2(build_same_number(), var("x"), var("y")),
        branches2(branch0("True", var("t")), branch0("False", data1("Var", var("y")))),
    );
    let on_apply = data2("Apply", apply(var("go"), var("f")), apply(var("go"), var("a")));
    let on_const = data2("Const", var("c"), apply2(build_map_list(), var("go"), var("es")));
    let on_case = data2(
        "Case",
        apply(var("go"), var("s")),
        apply2(build_map_list(), build_substitute_in_branch(), var("bs")),
    );
    let branches = branches6(
        branch1("Var", "y", on_var),
        branch2("Apply", "f", "a", on_apply),
        branch2("Lambda", "y", "b", build_under_binder("Lambda")),
        branch2("Rec", "y", "b", build_under_binder("Rec")),
        branch2("Const", "c", "es", on_const),
        branch2("Case", "s", "bs", on_case),
    );
    lambda("x", lambda("t", rec("go", lambda("e", case_of(var("e"), branches)))))
}

fn build_same_length() -> (result: Exp)
    ensures
        result@ == same_length(),
{
    let on_nil = case_of(
        var("ys"),
        branches2(branch0("Nil", data0("True")), branch2("Cons", "y", "yt", data0("False"))),
    );
    let on_cons = case_of(
        var("ys"),
        branches2(
            branch0("Nil", data0("False")),
            branch2("Cons", "y", "yt", apply2(var("same"), var("xt"), var("yt"))),
        ),
    );
    rec(
        "same",
        lambda(
            "xs",
            lambda(
                "ys",
                case_of(
                    var("xs"),
                    branches2(branch0("Nil", on_nil), branch2("Cons", "x", "xt", on_cons)),
                ),
            ),
        ),
    )
}

fn build_lookup() -> (result: Exp)
    ensures
        result@ == lookup(),
{
    let next = apply3(var("lookup"), var("c"), var("vs"), var("rest"));
    let on_same_name = case_of(
        apply2(build_same_length(), var("ps"), var("vs")),
        branches2(
            branch0("True", data2("Found", var("ps"), var("b"))),
            branch0("False", next.clone()),
        ),
    );
    let on_branch = case_of(
        apply2(build_same_number(), var("c"), var("k")),
        branches2(branch0("False", next), branch0("True", on_same_name)),
    );
    let on_cons = case_of(var("br"), branches1(branch3("Branch", "k", "ps", "b", on_branch)));
    rec(
        "lookup",
        lambda(
            "c",
            lambda(
                "vs",
                lambda(
                    "bs",
                    case_of(
                        var("bs"),
                        branches2(
                            branch0("Nil", data0("Missing")),
                            branch2("Cons", "br", "rest", on_cons),
                        ),
                    ),
                ),
            ),
        ),
    )
}

fn build_binder() -> (result: Exp)
    ensures
        result@ == binder(),
{
    let on_both = apply3(
        self_substituter(),
        var("p"),
        var("w"),
        apply3(var("bind"), var("pt"), var("wt"), var("b")),
    );
    let on_cons = case_of(
        var("vs"),
        branches2(branch0("Nil", var("b")), branch2("Cons", "w", "wt", on_both)),
    );
    rec(
        "bind",
        lambda(
            "ps",
            lambda(
                "vs",
                lambda(
                    "b",
                    case_of(
                        var("ps"),
                        branches2(branch0("Nil", var("b")), branch2("Cons", "p", "pt", on_cons)),
                    ),
                ),
            ),
        ),
    )
}

/// Builds the interpreter program.
pub fn self_interpreter() -> (result: Exp)
    ensures
        result@ == interpreter(),
{
    let stuck_apply = data2("Apply", var("f"), var("a"));
    let stuck_case = data2("Case", var("s"), var("bs"));
    let reduce_call = apply(
        var("eval"),
        apply3(self_substituter(), var("x"), apply(var("eval"), var("a")), var("b")),
    );
    let on_apply = case_of(
        apply(var("eval"), var("f")),
        build_unless_lambda(branch2("Lambda", "x", "b", reduce_call), &stuck_apply),
    );
    let on_const = data2("Const", var("c"), apply2(build_map_list(), var("eval"), var("es")));
    let on_rec = apply(
        var("eval"),
        apply3(self_substituter(), var("x"), data2("Rec", var("x"), var("b")), var("b")),
    );
    let on_found = apply(var("eval"), apply3(build_binder(), var("ps"), var("vs"), var("b")));
    let on_value = case_of(
        apply3(build_lookup(), var("c"), var("vs"), var("bs")),
        branches2(
            branch2("Found", "ps", "b", on_found),
            branch0("Missing", stuck_case.clone()),
        ),
    );
    let on_case = case_of(
        apply(var("eval"), var("s")),
        build_unless_const(branch2("Const", "c", "vs", on_value), &stuck_case),
    );
    let branches = branches6(
        branch1("Var", "x", data1("Var", var("x"))),
        branch2("Lambda", "x", "b", data2("Lambda", var("x"), var("b"))),
        branch2("Apply", "f", "a", on_apply),
        branch2("Const", "c", "es", on_const),
        branch2("Rec", "x", "b", on_rec),
        branch2("Case", "s", "bs", on_case),
    );
    rec("eval", lambda("e", case_of(var("e"), branches)))
}

} // verus!
