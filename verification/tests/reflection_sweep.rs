use chi::bootstrapping::{decompile, self_interpret, self_substitute, Context};
use chi::semantic::substitute::substitute;
use chi::semantic::{eval, eval_bounded};
use chi::syntax::{same_exp, Branch, Exp};

/// A small generator of numbers: the same numbers on every run.
struct Numbers {
    state: u64,
}

impl Numbers {
    fn next(&mut self, below: u64) -> u64 {
        self.state = self
            .state
            .wrapping_mul(6364136223846793005)
            .wrapping_add(1442695040888963407);
        (self.state >> 33) % below
    }

    fn variable(&mut self) -> String {
        ["x", "y", "z"][self.next(3) as usize].to_string()
    }

    fn constructor(&mut self) -> String {
        ["C", "D"][self.next(2) as usize].to_string()
    }

    fn term(&mut self, depth: u32) -> Exp {
        let kind = if depth == 0 { self.next(2) } else { self.next(7) };
        match kind {
            0 => Exp::Var(self.variable()),
            1 => Exp::Const(self.constructor(), vec![]),
            2 => Exp::Lambda(self.variable(), Box::new(self.term(depth - 1))),
            3 => Exp::Apply(
                Box::new(self.term(depth - 1)),
                Box::new(self.term(depth - 1)),
            ),
            4 => {
                let count = self.next(3);
                Exp::Const(
                    self.constructor(),
                    (0..count).map(|_| self.term(depth - 1)).collect(),
                )
            }
            5 => {
                let count = self.next(3);
                Exp::Case(
                    Box::new(self.term(depth - 1)),
                    (0..count)
                        .map(|_| {
                            let parameters = self.next(3);
                            Branch {
                                constructor: self.constructor(),
                                parameters: (0..parameters).map(|_| self.variable()).collect(),
                                expression: Box::new(self.term(depth - 1)),
                            }
                        })
                        .collect(),
                )
            }
            _ => Exp::Rec(self.variable(), Box::new(self.term(depth - 1))),
        }
    }
}

#[test]
fn interpreter_agrees_on_many_terms() {
    let mut numbers = Numbers { state: 7 };
    let mut evaluated = 0;
    for _ in 0..60 {
        let term = numbers.term(3);
        if let Some(direct) = eval_bounded(&term, 12) {
            let mut context = Context::new();
            let by_program = self_interpret(&term, &mut context);
            assert_eq!(by_program, decompile(&direct, &mut context), "on {:?}", term);
            assert_eq!(eval(&term), direct);
            assert_eq!(eval(&direct), direct);
            evaluated += 1;
        }
    }
    assert!(evaluated > 30);
}

#[test]
fn substituter_agrees_on_many_terms() {
    let mut numbers = Numbers { state: 11 };
    for _ in 0..100 {
        let term = numbers.term(3);
        let to = numbers.term(2);
        let from = numbers.variable();
        let mut context = Context::new();
        let by_program = self_substitute(&from, &to, &term, &mut context);
        let direct = substitute(&term, &from, &to);
        assert_eq!(by_program, decompile(&direct, &mut context), "on {:?}", term);
    }
}

#[test]
fn equality_agrees_on_many_terms() {
    let mut numbers = Numbers { state: 13 };
    let terms: Vec<Exp> = (0..60).map(|_| numbers.term(2)).collect();
    for left in &terms {
        assert!(same_exp(left, &left.clone()));
        for right in &terms {
            assert_eq!(same_exp(left, right), left == right);
        }
    }
}
