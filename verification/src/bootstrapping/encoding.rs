//! The canonical encoding, as mathematics.
//!
//! A numbering gives every name that it knows a natural number. Encoding a
//! term first numbers the names of the term that have no number yet, in a
//! fixed order of traversal, and then renders the term as data: every node
//! becomes a constructor application tagged with the node's kind, every name
//! becomes the Peano numeral of its number, and every list of children
//! becomes a chain of `Cons` that ends in `Nil`.

use crate::bootstrapping::pairs::inserted;
use crate::syntax::{Arm, Term};
use vstd::prelude::*;

verus! {

/// The numbers given to names of one sort, and the next number to give.
pub struct Table {
    pub ids: Map<Seq<char>, nat>,
    pub next: nat,
}

impl Table {
    /// No two names share a number, and every number given is below the
    /// next one to give.
    pub open spec fn wf(self) -> bool {
        &&& forall|a: Seq<char>, b: Seq<char>|
            self.ids.contains_key(a) && self.ids.contains_key(b) && #[trigger] self.ids[a]
                == #[trigger] self.ids[b] ==> a == b
        &&& forall|a: Seq<char>| self.ids.contains_key(a) ==> #[trigger] self.ids[a] < self.next
    }

    /// The table that knows no name.
    pub open spec fn empty() -> Table {
        Table { ids: Map::empty(), next: 0 }
    }

    /// Whether `name` has the number `id`.
    pub open spec fn holds(self, name: Seq<char>, id: nat) -> bool {
        self.ids.contains_key(name) && self.ids[name] == id
    }

    /// The table after `name` was given a number, if it had none: it gets
    /// the next number.
    pub open spec fn allocate(self, name: Seq<char>) -> Table {
        if self.ids.contains_key(name) {
            self
        } else {
            Table { ids: self.ids.insert(name, self.next), next: self.next + 1 }
        }
    }

    /// Whether a name other than `name` has the number `id`.
    pub open spec fn taken_by_other(self, name: Seq<char>, id: nat) -> bool {
        exists|other: Seq<char>| other != name && #[trigger] self.holds(other, id)
    }

    /// A name other than `name` that has the number `id`.
    pub open spec fn other_holder(self, name: Seq<char>, id: nat) -> Seq<char> {
        choose|other: Seq<char>| other != name && #[trigger] self.holds(other, id)
    }

    /// The table after `name` was given the number `id` explicitly.
    ///
    /// A number at or beyond the next one moves the next one past it. A
    /// number that another name has is taken from that name, which gets the
    /// next number instead. In every case `name` loses the number it had.
    pub open spec fn assign(self, name: Seq<char>, id: nat) -> Table {
        if id >= self.next {
            Table { ids: inserted(self.ids, name, id), next: id + 1 }
        } else if self.taken_by_other(name, id) {
            Table {
                ids: inserted(
                    inserted(self.ids, name, id),
                    self.other_holder(name, id),
                    self.next,
                ),
                next: self.next + 1,
            }
        } else {
            Table { ids: inserted(self.ids, name, id), next: self.next }
        }
    }

    /// Whether `later` knows every name of this table under the same
    /// number, and gives no smaller next number.
    pub open spec fn extends_to(self, later: Table) -> bool {
        &&& self.next <= later.next
        &&& forall|name: Seq<char>| #[trigger]
            self.ids.contains_key(name) ==> later.ids.contains_key(name) && later.ids[name]
                == self.ids[name]
    }
}

/// The numbers of variables and of constructors: the mathematical value of
/// an encoding context.
pub struct Numbering {
    pub variables: Table,
    pub constructors: Table,
}

impl Numbering {
    /// Both tables are well formed.
    pub open spec fn wf(self) -> bool {
        self.variables.wf() && self.constructors.wf()
    }

    /// The numbering that knows no name.
    pub open spec fn empty() -> Numbering {
        Numbering { variables: Table::empty(), constructors: Table::empty() }
    }

    /// Both next numbers are machine numbers.
    pub open spec fn fits(self) -> bool {
        self.variables.next <= usize::MAX && self.constructors.next <= usize::MAX
    }

    /// The numbering after the variable `name` was given a number, if it
    /// had none.
    pub open spec fn with_variable(self, name: Seq<char>) -> Numbering {
        Numbering { variables: self.variables.allocate(name), constructors: self.constructors }
    }

    /// The numbering after the constructor `name` was given a number, if it
    /// had none.
    pub open spec fn with_constructor(self, name: Seq<char>) -> Numbering {
        Numbering { variables: self.variables, constructors: self.constructors.allocate(name) }
    }

    /// Whether `later` extends both tables.
    pub open spec fn extends_to(self, later: Numbering) -> bool {
        self.variables.extends_to(later.variables) && self.constructors.extends_to(
            later.constructors,
        )
    }
}

/// The numbering after the names of `names` were numbered as variables, the
/// last name first.
pub open spec fn number_names(names: Seq<Seq<char>>, numbering: Numbering) -> Numbering
    decreases names.len(),
{
    if names.len() == 0 {
        numbering
    } else {
        number_names(names.drop_last(), numbering.with_variable(names.last()))
    }
}

/// The numbering after the names of `term` were numbered.
///
/// A node's own name is numbered before the names below it, a function
/// before its argument, a scrutinee before the branches, and the members of
/// a list from the last to the first.
pub open spec fn number(term: Term, numbering: Numbering) -> Numbering
    decreases term,
{
    match term {
        Term::Var(x) => numbering.with_variable(x),
        Term::Const(c, arguments) => number_terms(arguments, numbering.with_constructor(c)),
        Term::Apply(f, a) => number(*a, number(*f, numbering)),
        Term::Lambda(x, body) => number(*body, numbering.with_variable(x)),
        Term::Rec(x, body) => number(*body, numbering.with_variable(x)),
        Term::Case(scrutinee, arms) => number_arms(arms, number(*scrutinee, numbering)),
    }
}

/// The numbering after the names of the terms of a list were numbered, the
/// last term first.
pub open spec fn number_terms(terms: Seq<Term>, numbering: Numbering) -> Numbering
    decreases terms,
{
    if terms.len() == 0 {
        numbering
    } else {
        number_terms(terms.drop_last(), number(terms.last(), numbering))
    }
}

/// The numbering after the names of a branch were numbered: the
/// constructor, then the parameters, then the names of the body.
pub open spec fn number_arm(arm: Arm, numbering: Numbering) -> Numbering
    decreases arm,
{
    number(
        *arm.expression,
        number_names(arm.parameters, numbering.with_constructor(arm.constructor)),
    )
}

/// The numbering after the names of the branches of a list were numbered,
/// the last branch first.
pub open spec fn number_arms(arms: Seq<Arm>, numbering: Numbering) -> Numbering
    decreases arms,
{
    if arms.len() == 0 {
        numbering
    } else {
        number_arms(arms.drop_last(), number_arm(arms.last(), numbering))
    }
}

/// The Peano numeral of a number: `Zero()` for 0, and `Suc` of the numeral
/// of the number before it otherwise.
pub open spec fn numeral(number: nat) -> Term
    decreases number,
{
    if number == 0 {
        Term::Const("Zero"@, seq![])
    } else {
        Term::Const("Suc"@, seq![numeral((number - 1) as nat)])
    }
}

/// The list of the given items as data: `Cons` of the first item and the
/// list of the others, and `Nil()` for the empty list.
pub open spec fn list(items: Seq<Term>) -> Term
    decreases items.len(),
{
    if items.len() == 0 {
        Term::Const("Nil"@, seq![])
    } else {
        Term::Const("Cons"@, seq![items.first(), list(items.drop_first())])
    }
}

/// The numerals of the numbers that the numbering gives to the names.
pub open spec fn render_names(names: Seq<Seq<char>>, numbering: Numbering) -> Seq<Term> {
    Seq::new(names.len(), |i: int| numeral(numbering.variables.ids[names[i]]))
}

/// The term as data, with the numbers that the numbering gives to its
/// names.
pub open spec fn render(term: Term, numbering: Numbering) -> Term
    decreases term,
{
    match term {
        Term::Var(x) => Term::Const("Var"@, seq![numeral(numbering.variables.ids[x])]),
        Term::Const(c, arguments) => Term::Const(
            "Const"@,
            seq![numeral(numbering.constructors.ids[c]), render_terms(arguments, numbering)],
        ),
        Term::Apply(f, a) => Term::Const(
            "Apply"@,
            seq![render(*f, numbering), render(*a, numbering)],
        ),
        Term::Lambda(x, body) => Term::Const(
            "Lambda"@,
            seq![numeral(numbering.variables.ids[x]), render(*body, numbering)],
        ),
        Term::Rec(x, body) => Term::Const(
            "Rec"@,
            seq![numeral(numbering.variables.ids[x]), render(*body, numbering)],
        ),
        Term::Case(scrutinee, arms) => Term::Const(
            "Case"@,
            seq![render(*scrutinee, numbering), render_arms(arms, numbering)],
        ),
    }
}

/// The list of the terms as data.
pub open spec fn render_terms(terms: Seq<Term>, numbering: Numbering) -> Term
    decreases terms,
{
    if terms.len() == 0 {
        Term::Const("Nil"@, seq![])
    } else {
        Term::Const(
            "Cons"@,
            seq![render(terms.first(), numbering), render_terms(terms.drop_first(), numbering)],
        )
    }
}

/// The branch as data: its constructor's numeral, the list of its
/// parameters' numerals, and its body.
pub open spec fn render_arm(arm: Arm, numbering: Numbering) -> Term
    decreases arm,
{
    Term::Const(
        "Branch"@,
        seq![
            numeral(numbering.constructors.ids[arm.constructor]),
            list(render_names(arm.parameters, numbering)),
            render(*arm.expression, numbering),
        ],
    )
}

/// The list of the branches as data.
pub open spec fn render_arms(arms: Seq<Arm>, numbering: Numbering) -> Term
    decreases arms,
{
    if arms.len() == 0 {
        Term::Const("Nil"@, seq![])
    } else {
        Term::Const(
            "Cons"@,
            seq![render_arm(arms.first(), numbering), render_arms(arms.drop_first(), numbering)],
        )
    }
}

/// The canonical encoding of a term: the term as data under the numbering
/// that has numbered its names, and that numbering.
pub open spec fn encode(term: Term, numbering: Numbering) -> (Term, Numbering) {
    (render(term, number(term, numbering)), number(term, numbering))
}

/// Whether the numbering knows every name of the list as a variable.
pub open spec fn knows_names(names: Seq<Seq<char>>, numbering: Numbering) -> bool {
    forall|i: int|
        0 <= i < names.len() ==> numbering.variables.ids.contains_key(#[trigger] names[i])
}

/// Whether the numbering knows every name of the term.
pub open spec fn knows(term: Term, numbering: Numbering) -> bool
    decreases term,
{
    match term {
        Term::Var(x) => numbering.variables.ids.contains_key(x),
        Term::Const(c, arguments) => numbering.constructors.ids.contains_key(c) && forall|i: int|
            0 <= i < arguments.len() ==> knows(#[trigger] arguments[i], numbering),
        Term::Apply(f, a) => knows(*f, numbering) && knows(*a, numbering),
        Term::Lambda(x, body) => numbering.variables.ids.contains_key(x) && knows(
            *body,
            numbering,
        ),
        Term::Rec(x, body) => numbering.variables.ids.contains_key(x) && knows(*body, numbering),
        Term::Case(scrutinee, arms) => knows(*scrutinee, numbering) && forall|i: int|
            0 <= i < arms.len() ==> knows_arm(#[trigger] arms[i], numbering),
    }
}

/// Whether the numbering knows every name of the branch.
pub open spec fn knows_arm(arm: Arm, numbering: Numbering) -> bool
    decreases arm,
{
    &&& numbering.constructors.ids.contains_key(arm.constructor)
    &&& knows_names(arm.parameters, numbering)
    &&& knows(*arm.expression, numbering)
}

/// Whether the numbering knows every name of every term of the list.
pub open spec fn knows_terms(terms: Seq<Term>, numbering: Numbering) -> bool {
    forall|i: int| 0 <= i < terms.len() ==> knows(#[trigger] terms[i], numbering)
}

/// Whether the numbering knows every name of every branch of the list.
pub open spec fn knows_arms(arms: Seq<Arm>, numbering: Numbering) -> bool {
    forall|i: int| 0 <= i < arms.len() ==> knows_arm(#[trigger] arms[i], numbering)
}

/// A numbering that knows the names of a term, and every numbering that
/// extends it, render the term alike.
pub proof fn lemma_render_stable(term: Term, numbering: Numbering, later: Numbering)
    requires
        knows(term, numbering),
        numbering.extends_to(later),
    ensures
        knows(term, later),
        render(term, later) == render(term, numbering),
    decreases term,
{
    match term {
        Term::Var(_) => {},
        Term::Const(_, arguments) => {
            lemma_render_terms_stable(arguments, numbering, later);
        },
        Term::Apply(f, a) => {
            lemma_render_stable(*f, numbering, later);
            lemma_render_stable(*a, numbering, later);
        },
        Term::Lambda(_, body) => {
            lemma_render_stable(*body, numbering, later);
        },
        Term::Rec(_, body) => {
            lemma_render_stable(*body, numbering, later);
        },
        Term::Case(scrutinee, arms) => {
            lemma_render_stable(*scrutinee, numbering, later);
            lemma_render_arms_stable(arms, numbering, later);
        },
    }
}

/// The same for a list of terms.
pub proof fn lemma_render_terms_stable(terms: Seq<Term>, numbering: Numbering, later: Numbering)
    requires
        knows_terms(terms, numbering),
        numbering.extends_to(later),
    ensures
        knows_terms(terms, later),
        render_terms(terms, later) == render_terms(terms, numbering),
    decreases terms,
{
    if terms.len() > 0 {
        lemma_render_stable(terms.first(), numbering, later);
        assert forall|i: int| 0 <= i < terms.drop_first().len() implies knows(
            #[trigger] terms.drop_first()[i],
            numbering,
        ) by {
            assert(terms.drop_first()[i] == terms[i + 1]);
        }
        lemma_render_terms_stable(terms.drop_first(), numbering, later);
        assert forall|i: int| 0 <= i < terms.len() implies knows(#[trigger] terms[i], later) by {
            if i > 0 {
                assert(terms[i] == terms.drop_first()[i - 1]);
            }
        }
    }
}

/// The same for a list of names.
pub proof fn lemma_render_names_stable(
    names: Seq<Seq<char>>,
    numbering: Numbering,
    later: Numbering,
)
    requires
        knows_names(names, numbering),
        numbering.extends_to(later),
    ensures
        knows_names(names, later),
        render_names(names, later) == render_names(names, numbering),
{
    assert(render_names(names, later) =~= render_names(names, numbering));
}

/// The same for a branch.
pub proof fn lemma_render_arm_stable(arm: Arm, numbering: Numbering, later: Numbering)
    requires
        knows_arm(arm, numbering),
        numbering.extends_to(later),
    ensures
        knows_arm(arm, later),
        render_arm(arm, later) == render_arm(arm, numbering),
    decreases arm,
{
    lemma_render_names_stable(arm.parameters, numbering, later);
    lemma_render_stable(*arm.expression, numbering, later);
}

/// The same for a list of branches.
pub proof fn lemma_render_arms_stable(arms: Seq<Arm>, numbering: Numbering, later: Numbering)
    requires
        knows_arms(arms, numbering),
        numbering.extends_to(later),
    ensures
        knows_arms(arms, later),
        render_arms(arms, later) == render_arms(arms, numbering),
    decreases arms,
{
    if arms.len() > 0 {
        lemma_render_arm_stable(arms.first(), numbering, later);
        assert forall|i: int| 0 <= i < arms.drop_first().len() implies knows_arm(
            #[trigger] arms.drop_first()[i],
            numbering,
        ) by {
            assert(arms.drop_first()[i] == arms[i + 1]);
        }
        lemma_render_arms_stable(arms.drop_first(), numbering, later);
        assert forall|i: int| 0 <= i < arms.len() implies knows_arm(#[trigger] arms[i], later) by {
            if i > 0 {
                assert(arms[i] == arms.drop_first()[i - 1]);
            }
        }
    }
}

/// Giving a name a number keeps what was numbered, leaves the name
/// numbered, and keeps a well-formed table well formed.
pub proof fn lemma_allocate(table: Table, name: Seq<char>)
    ensures
        table.extends_to(table.allocate(name)),
        table.allocate(name).ids.contains_key(name),
        table.wf() ==> table.allocate(name).wf(),
        table.ids.contains_key(name) ==> table.allocate(name) == table,
{
    let after = table.allocate(name);
    assert(after.ids.contains_key(name));
    assert(table.extends_to(after));
    if table.wf() {
        assert(after.wf());
    }
}

/// Giving a name a number explicitly leaves the name with that number and
/// keeps a well-formed table well formed.
pub proof fn lemma_assign(table: Table, name: Seq<char>, id: nat)
    requires
        table.wf(),
    ensures
        table.assign(name, id).wf(),
        table.assign(name, id).holds(name, id),
        table.next <= table.assign(name, id).next,
{
    let after = table.assign(name, id);
    if id < table.next && table.taken_by_other(name, id) {
        let other = table.other_holder(name, id);
        assert(table.holds(other, id));
        let middle = inserted(table.ids, name, id);
        assert(!middle.contains_key(other));
        assert(after.ids == inserted(middle, other, table.next));
        assert(after.holds(name, id));
        assert(after.wf());
    } else {
        assert(after.ids == inserted(table.ids, name, id));
        assert(after.wf());
    }
}

/// Extension is transitive.
pub proof fn lemma_extends_transitive(first: Numbering, second: Numbering, third: Numbering)
    requires
        first.extends_to(second),
        second.extends_to(third),
    ensures
        first.extends_to(third),
{
}

/// Numbering the names of a list of names keeps what was numbered, leaves
/// every name of the list numbered, keeps a well-formed numbering well
/// formed, and changes nothing where the names were all known.
pub proof fn lemma_number_names(names: Seq<Seq<char>>, numbering: Numbering)
    ensures
        numbering.extends_to(number_names(names, numbering)),
        knows_names(names, number_names(names, numbering)),
        numbering.wf() ==> number_names(names, numbering).wf(),
        knows_names(names, numbering) ==> number_names(names, numbering) == numbering,
        number_names(names, numbering).constructors == numbering.constructors,
    decreases names.len(),
{
    if names.len() > 0 {
        let first = numbering.with_variable(names.last());
        let after = number_names(names, numbering);
        lemma_allocate(numbering.variables, names.last());
        lemma_number_names(names.drop_last(), first);
        lemma_extends_transitive(numbering, first, after);
        assert forall|i: int| 0 <= i < names.len() implies after.variables.ids.contains_key(
            #[trigger] names[i],
        ) by {
            if i < names.len() - 1 {
                assert(names[i] == names.drop_last()[i]);
            } else {
                assert(first.variables.ids.contains_key(names[i]));
            }
        }
        if knows_names(names, numbering) {
            assert(numbering.variables.ids.contains_key(names[names.len() - 1]));
            assert(first == numbering);
            assert forall|i: int|
                0 <= i < names.drop_last().len() implies numbering.variables.ids.contains_key(
                #[trigger] names.drop_last()[i],
            ) by {
                assert(names.drop_last()[i] == names[i]);
            }
        }
    }
}

/// Numbering the names of a term keeps what was numbered, leaves every name
/// of the term numbered, keeps a well-formed numbering well formed, and
/// changes nothing where the names were all known.
pub proof fn lemma_number(term: Term, numbering: Numbering)
    ensures
        numbering.extends_to(number(term, numbering)),
        knows(term, number(term, numbering)),
        numbering.wf() ==> number(term, numbering).wf(),
        knows(term, numbering) ==> number(term, numbering) == numbering,
    decreases term,
{
    let after = number(term, numbering);
    match term {
        Term::Var(x) => {
            lemma_allocate(numbering.variables, x);
        },
        Term::Const(c, arguments) => {
            let first = numbering.with_constructor(c);
            lemma_allocate(numbering.constructors, c);
            lemma_number_terms(arguments, first);
            lemma_extends_transitive(numbering, first, after);
            assert(after.constructors.ids.contains_key(c));
        },
        Term::Apply(f, a) => {
            let first = number(*f, numbering);
            lemma_number(*f, numbering);
            lemma_number(*a, first);
            lemma_render_stable(*f, first, after);
            lemma_extends_transitive(numbering, first, after);
        },
        Term::Lambda(x, body) => {
            let first = numbering.with_variable(x);
            lemma_allocate(numbering.variables, x);
            lemma_number(*body, first);
            lemma_extends_transitive(numbering, first, after);
            assert(after.variables.ids.contains_key(x));
        },
        Term::Rec(x, body) => {
            let first = numbering.with_variable(x);
            lemma_allocate(numbering.variables, x);
            lemma_number(*body, first);
            lemma_extends_transitive(numbering, first, after);
            assert(after.variables.ids.contains_key(x));
        },
        Term::Case(scrutinee, arms) => {
            let first = number(*scrutinee, numbering);
            lemma_number(*scrutinee, numbering);
            lemma_number_arms(arms, first);
            lemma_render_stable(*scrutinee, first, after);
            lemma_extends_transitive(numbering, first, after);
        },
    }
}

/// The same for a list of terms.
pub proof fn lemma_number_terms(terms: Seq<Term>, numbering: Numbering)
    ensures
        numbering.extends_to(number_terms(terms, numbering)),
        knows_terms(terms, number_terms(terms, numbering)),
        numbering.wf() ==> number_terms(terms, numbering).wf(),
        knows_terms(terms, numbering) ==> number_terms(terms, numbering) == numbering,
    decreases terms,
{
    if terms.len() > 0 {
        let first = number(terms.last(), numbering);
        let after = number_terms(terms.drop_last(), first);
        lemma_number(terms.last(), numbering);
        lemma_number_terms(terms.drop_last(), first);
        lemma_render_stable(terms.last(), first, after);
        lemma_extends_transitive(numbering, first, after);
        assert forall|i: int| 0 <= i < terms.len() implies knows(#[trigger] terms[i], after) by {
            if i < terms.len() - 1 {
                assert(terms[i] == terms.drop_last()[i]);
            }
        }
        if knows_terms(terms, numbering) {
            assert(knows(terms[terms.len() - 1], numbering));
            assert forall|i: int| 0 <= i < terms.drop_last().len() implies knows(
                #[trigger] terms.drop_last()[i],
                numbering,
            ) by {
                assert(terms.drop_last()[i] == terms[i]);
            }
        }
    }
}

/// The same for a branch.
pub proof fn lemma_number_arm(arm: Arm, numbering: Numbering)
    ensures
        numbering.extends_to(number_arm(arm, numbering)),
        knows_arm(arm, number_arm(arm, numbering)),
        numbering.wf() ==> number_arm(arm, numbering).wf(),
        knows_arm(arm, numbering) ==> number_arm(arm, numbering) == numbering,
    decreases arm,
{
    let first = numbering.with_constructor(arm.constructor);
    let second = number_names(arm.parameters, first);
    let after = number(*arm.expression, second);
    lemma_allocate(numbering.constructors, arm.constructor);
    lemma_number_names(arm.parameters, first);
    lemma_number(*arm.expression, second);
    lemma_render_names_stable(arm.parameters, second, after);
    lemma_extends_transitive(numbering, first, second);
    lemma_extends_transitive(numbering, second, after);
    assert(first.constructors.ids.contains_key(arm.constructor));
    assert(second.constructors.ids.contains_key(arm.constructor));
    assert(after.constructors.ids.contains_key(arm.constructor));
}

/// The same for a list of branches.
pub proof fn lemma_number_arms(arms: Seq<Arm>, numbering: Numbering)
    ensures
        numbering.extends_to(number_arms(arms, numbering)),
        knows_arms(arms, number_arms(arms, numbering)),
        numbering.wf() ==> number_arms(arms, numbering).wf(),
        knows_arms(arms, numbering) ==> number_arms(arms, numbering) == numbering,
    decreases arms,
{
    if arms.len() > 0 {
        let first = number_arm(arms.last(), numbering);
        let after = number_arms(arms.drop_last(), first);
        lemma_number_arm(arms.last(), numbering);
        lemma_number_arms(arms.drop_last(), first);
        lemma_render_arm_stable(arms.last(), first, after);
        lemma_extends_transitive(numbering, first, after);
        assert forall|i: int| 0 <= i < arms.len() implies knows_arm(#[trigger] arms[i], after) by {
            if i < arms.len() - 1 {
                assert(arms[i] == arms.drop_last()[i]);
            }
        }
        if knows_arms(arms, numbering) {
            assert(knows_arm(arms[arms.len() - 1], numbering));
            assert forall|i: int| 0 <= i < arms.drop_last().len() implies knows_arm(
                #[trigger] arms.drop_last()[i],
                numbering,
            ) by {
                assert(arms.drop_last()[i] == arms[i]);
            }
        }
    }
}

/// Encoding is deterministic: encoding a term again, under the numbering
/// that the first encoding left, gives the same data and leaves that
/// numbering as it is.
pub proof fn lemma_encode_twice(term: Term, numbering: Numbering)
    ensures
        encode(term, encode(term, numbering).1) == encode(term, numbering),
{
    lemma_number(term, numbering);
    lemma_number(term, number(term, numbering));
}

/// The number of places in a term where a name stands.
pub open spec fn names_in(term: Term) -> nat
    decreases term,
{
    match term {
        Term::Var(_) => 1,
        Term::Const(_, arguments) => 1 + names_in_terms(arguments),
        Term::Apply(f, a) => names_in(*f) + names_in(*a),
        Term::Lambda(_, body) => 1 + names_in(*body),
        Term::Rec(_, body) => 1 + names_in(*body),
        Term::Case(scrutinee, arms) => names_in(*scrutinee) + names_in_arms(arms),
    }
}

/// The number of places in a list of terms where a name stands.
pub open spec fn names_in_terms(terms: Seq<Term>) -> nat
    decreases terms,
{
    if terms.len() == 0 {
        0
    } else {
        names_in_terms(terms.drop_last()) + names_in(terms.last())
    }
}

/// The number of places in a branch where a name stands.
pub open spec fn names_in_arm(arm: Arm) -> nat
    decreases arm,
{
    1 + arm.parameters.len() + names_in(*arm.expression)
}

/// The number of places in a list of branches where a name stands.
pub open spec fn names_in_arms(arms: Seq<Arm>) -> nat
    decreases arms,
{
    if arms.len() == 0 {
        0
    } else {
        names_in_arms(arms.drop_last()) + names_in_arm(arms.last())
    }
}

/// Whether both next numbers stay machine numbers when as many names are
/// numbered as a term has places for names.
pub open spec fn room_for(term: Term, numbering: Numbering) -> bool {
    numbering.variables.next + names_in(term) <= usize::MAX && numbering.constructors.next
        + names_in(term) <= usize::MAX
}

/// Whether the next numbers of `later` are at most those of `numbering` and
/// `count` more.
pub open spec fn within(numbering: Numbering, later: Numbering, count: nat) -> bool {
    later.variables.next <= numbering.variables.next + count && later.constructors.next
        <= numbering.constructors.next + count
}

/// Numbering a list of names gives at most as many numbers as it has names.
pub proof fn lemma_number_names_within(names: Seq<Seq<char>>, numbering: Numbering)
    ensures
        within(numbering, number_names(names, numbering), names.len()),
    decreases names.len(),
{
    if names.len() > 0 {
        lemma_number_names_within(names.drop_last(), numbering.with_variable(names.last()));
    }
}

/// Numbering a term gives at most as many numbers as it has places for
/// names.
pub proof fn lemma_number_within(term: Term, numbering: Numbering)
    ensures
        within(numbering, number(term, numbering), names_in(term)),
    decreases term,
{
    match term {
        Term::Var(_) => {},
        Term::Const(c, arguments) => {
            lemma_number_terms_within(arguments, numbering.with_constructor(c));
        },
        Term::Apply(f, a) => {
            lemma_number_within(*f, numbering);
            lemma_number_within(*a, number(*f, numbering));
        },
        Term::Lambda(x, body) => {
            lemma_number_within(*body, numbering.with_variable(x));
        },
        Term::Rec(x, body) => {
            lemma_number_within(*body, numbering.with_variable(x));
        },
        Term::Case(scrutinee, arms) => {
            lemma_number_within(*scrutinee, numbering);
            lemma_number_arms_within(arms, number(*scrutinee, numbering));
        },
    }
}

/// The same for a list of terms.
pub proof fn lemma_number_terms_within(terms: Seq<Term>, numbering: Numbering)
    ensures
        within(numbering, number_terms(terms, numbering), names_in_terms(terms)),
    decreases terms,
{
    if terms.len() > 0 {
        lemma_number_within(terms.last(), numbering);
        lemma_number_terms_within(terms.drop_last(), number(terms.last(), numbering));
    }
}

/// The same for a branch.
pub proof fn lemma_number_arm_within(arm: Arm, numbering: Numbering)
    ensures
        within(numbering, number_arm(arm, numbering), names_in_arm(arm)),
    decreases arm,
{
    let first = numbering.with_constructor(arm.constructor);
    let second = number_names(arm.parameters, first);
    lemma_number_names_within(arm.parameters, first);
    lemma_number_within(*arm.expression, second);
}

/// The same for a list of branches.
pub proof fn lemma_number_arms_within(arms: Seq<Arm>, numbering: Numbering)
    ensures
        within(numbering, number_arms(arms, numbering), names_in_arms(arms)),
    decreases arms,
{
    if arms.len() > 0 {
        lemma_number_arm_within(arms.last(), numbering);
        lemma_number_arms_within(arms.drop_last(), number_arm(arms.last(), numbering));
    }
}

/// Where there is room for the names of a term, numbering them leaves both
/// next numbers machine numbers.
pub proof fn lemma_room_fits(term: Term, numbering: Numbering)
    requires
        room_for(term, numbering),
    ensures
        number(term, numbering).fits(),
{
    lemma_number_within(term, numbering);
}

} // verus!
