//! The canonical encoding of terms as data of the calculus.
//!
//! An encoding context numbers variables and constructors. [`decompile`]
//! numbers the names of a term and returns the term as data: a term built
//! from the constructors `Var`, `Const`, `Apply`, `Lambda`, `Rec`, `Case` and
//! `Branch`, the numerals `Zero` and `Suc`, and the lists `Nil` and `Cons`.
//!
//! Two programs of the calculus work on that data: [`self_substitute`]
//! substitutes by the one, and [`self_interpret`] evaluates by the other.
//! Both give what substitution and evaluation give, encoded.

pub mod agreement;
pub mod builders;
pub mod encoding;
pub mod injective;
pub mod names;
pub mod pairs;
pub mod programs;
pub mod steps;

use crate::bootstrapping::agreement::laws::{lemma_self_interpretation, lemma_self_substitution};
use crate::bootstrapping::builders::{apply, apply3, data0, data1, data2, data3};
use crate::bootstrapping::encoding::{
    knows_arms, knows_names, knows_terms, lemma_allocate, lemma_assign, lemma_extends_transitive,
    lemma_number, lemma_number_arm, lemma_number_arms, lemma_number_names, lemma_number_terms,
    lemma_render_arms_stable, lemma_render_names_stable, lemma_render_stable,
    lemma_render_terms_stable, lemma_room_fits, list, names_in, names_in_arm, names_in_arms,
    names_in_terms, number, number_arm, number_arms, number_names, number_terms, numeral, render,
    render_arm, render_arms, render_names, render_terms, room_for, Numbering, Table,
};
use crate::bootstrapping::pairs::{
    copied, empty_map, inserted, listed, name_of, number_of, pairs, put,
};
use crate::bootstrapping::programs::{
    app, app3, interpreter, self_interpreter, self_substituter, substituter,
};
use crate::semantic::substitute::subst;
use crate::semantic::{eval, evaluates, normal_form};
use crate::syntax::{
    arms_of, lemma_case_view, lemma_const_view, names_view, terms_of, Branch, Constructor, Exp,
    Variable,
};
use bimap::BiMap;
use vstd::prelude::*;

verus! {

/// The numbers given to the names of one sort.
#[derive(Debug)]
struct IdTable {
    names: BiMap<String, usize>,
    next_id: usize,
}

impl IdTable {
    spec fn model(&self) -> Table {
        Table { ids: pairs(self.names), next: self.next_id as nat }
    }

    fn new() -> (result: IdTable)
        ensures
            result.model() == Table::empty(),
    {
        let result = IdTable { names: empty_map(), next_id: 0 };
        assert(result.model().ids =~= Table::empty().ids);
        result
    }

    fn get_or_create(&mut self, name: &String) -> (id: usize)
        requires
            old(self).model().wf(),
            old(self).model().allocate(name@).next <= usize::MAX,
        ensures
            final(self).model() == old(self).model().allocate(name@),
            final(self).model().holds(name@, id as nat),
    {
        match number_of(&self.names, name) {
            Some(id) => id,
            None => {
                let id = self.next_id;
                put(&mut self.names, name.clone(), id);
                self.next_id += 1;
                assert(self.model().ids =~= old(self).model().allocate(name@).ids);
                id
            },
        }
    }

    fn set(&mut self, name: String, id: usize)
        requires
            old(self).model().wf(),
            old(self).model().assign(name@, id as nat).next <= usize::MAX,
        ensures
            final(self).model() == old(self).model().assign(name@, id as nat),
    {
        let ghost before = self.model();
        if id >= self.next_id {
            self.next_id = id + 1;
            put(&mut self.names, name, id);
        } else {
            match name_of(&self.names, id) {
                Some(existing) => {
                    if existing == name {
                        assert(!before.taken_by_other(name@, id as nat));
                        assert(before.ids =~= inserted(before.ids, name@, id as nat));
                    } else {
                        assert(before.holds(existing@, id as nat));
                        assert(before.taken_by_other(name@, id as nat));
                        assert(before.other_holder(name@, id as nat) == existing@);
                        put(&mut self.names, name, id);
                        put(&mut self.names, existing, self.next_id);
                        self.next_id += 1;
                    }
                },
                None => {
                    assert(!before.taken_by_other(name@, id as nat)) by {
                        if before.taken_by_other(name@, id as nat) {
                            let other = before.other_holder(name@, id as nat);
                            assert(before.holds(other, id as nat));
                            assert(before.ids[other] != id as nat);
                        }
                    }
                    put(&mut self.names, name, id);
                },
            }
        }
    }

    fn assignments(&self) -> (result: Vec<(String, usize)>)
        ensures
            lists(result@, self.model()),
    {
        listed(&self.names)
    }

    fn restore(listing: &Vec<(String, usize)>, next_id: usize) -> (result: Option<IdTable>)
        ensures
            result is Some <==> consistent(listing@, next_id as nat),
            result matches Some(table) ==> lists(listing@, table.model()) && table.model().next
                == next_id as nat && table.model().wf(),
    {
        let mut table = IdTable { names: empty_map(), next_id };
        let mut i: usize = 0;
        while i < listing.len()
            invariant
                i <= listing@.len(),
                table.next_id == next_id,
                table.model().wf(),
                lists(listing@.take(i as int), table.model()),
                consistent(listing@.take(i as int), next_id as nat),
            decreases listing.len() - i,
        {
            let ghost before = table.model();
            let ghost done = listing@.take(i as int);
            let name = &listing[i].0;
            let id = listing[i].1;
            if id >= next_id {
                return None;
            }
            if let Some(_) = number_of(&table.names, name) {
                assert(before.ids.contains_key(name@));
                let ghost j = choose|j: int| 0 <= j < done.len() && (#[trigger] done[j]).0@ == name@;
                assert(listing@[j] == done[j]);
                return None;
            }
            if let Some(other) = name_of(&table.names, id) {
                assert(before.ids.contains_key(other@));
                let ghost j = choose|j: int|
                    0 <= j < done.len() && (#[trigger] done[j]).0@ == other@;
                assert(listing@[j] == done[j]);
                assert(before.holds(done[j].0@, done[j].1 as nat));
                return None;
            }
            put(&mut table.names, name.clone(), id);
            i += 1;
            proof {
                let now = listing@.take(i as int);
                let after = table.model();
                assert(after.ids =~= before.ids.insert(name@, id as nat));
                assert forall|k: int| 0 <= k < now.len() implies after.holds(
                    (#[trigger] now[k]).0@,
                    now[k].1 as nat,
                ) by {
                    if k < i - 1 {
                        assert(now[k] == done[k]);
                        assert(before.holds(done[k].0@, done[k].1 as nat));
                    }
                }
                assert forall|key: Seq<char>| #[trigger] after.ids.contains_key(key) implies exists|
                    k: int,
                |
                    0 <= k < now.len() && (#[trigger] now[k]).0@ == key by {
                    if key == name@ {
                        assert(now[i - 1].0@ == key);
                    } else {
                        assert(before.ids.contains_key(key));
                        let k = choose|k: int| 0 <= k < done.len() && (#[trigger] done[k]).0@ == key;
                        assert(now[k] == done[k]);
                    }
                }
                assert forall|a: int, b: int| 0 <= a < b < now.len() implies (#[trigger] now[a]).0@
                    != (#[trigger] now[b]).0@ && now[a].1 != now[b].1 by {
                    assert(now[a] == done[a]);
                    assert(before.holds(done[a].0@, done[a].1 as nat));
                    if b < i - 1 {
                        assert(now[b] == done[b]);
                    }
                }
                assert forall|k: int| 0 <= k < now.len() implies (#[trigger] now[k]).1 < next_id by {
                    if k < i - 1 {
                        assert(now[k] == done[k]);
                    }
                }
            }
        }
        assert(listing@.take(i as int) =~= listing@);
        Some(table)
    }

    fn duplicate(&self) -> (result: IdTable)
        ensures
            result.model() == self.model(),
    {
        IdTable { names: copied(&self.names), next_id: self.next_id }
    }
}

/// Whether the pairs are those of the table, each once.
pub open spec fn lists(listing: Seq<(String, usize)>, table: Table) -> bool {
    &&& forall|i: int|
        0 <= i < listing.len() ==> table.holds(
            (#[trigger] listing[i]).0@,
            listing[i].1 as nat,
        )
    &&& forall|name: Seq<char>| #[trigger]
        table.ids.contains_key(name) ==> exists|i: int|
            0 <= i < listing.len() && (#[trigger] listing[i]).0@ == name
    &&& forall|i: int, j: int|
        0 <= i < j < listing.len() ==> (#[trigger] listing[i]).0@ != (#[trigger] listing[j]).0@
}

/// Whether a listing can be a table with the given next number: no name
/// and no number stands twice, and every number is below the next one.
pub open spec fn consistent(listing: Seq<(String, usize)>, next: nat) -> bool {
    &&& forall|i: int, j: int|
        0 <= i < j < listing.len() ==> (#[trigger] listing[i]).0@ != (#[trigger] listing[j]).0@
            && listing[i].1 != listing[j].1
    &&& forall|i: int| 0 <= i < listing.len() ==> (#[trigger] listing[i]).1 < next
}

/// An encoding context: the numbers given to variables and to constructors,
/// kept from one encoding to the next.
#[derive(Debug)]
pub struct Context {
    variable: IdTable,
    constructor: IdTable,
}

impl View for Context {
    type V = Numbering;

    closed spec fn view(&self) -> Numbering {
        Numbering { variables: self.variable.model(), constructors: self.constructor.model() }
    }
}

impl Context {
    /// The number of a variable: the one it has, or else the next number,
    /// which it is given.
    pub fn get_or_create_variable_id(&mut self, variable: &Variable) -> (id: usize)
        requires
            old(self)@.wf(),
            old(self)@.with_variable(variable@).fits(),
        ensures
            final(self)@ == old(self)@.with_variable(variable@),
            final(self)@.variables.holds(variable@, id as nat),
            final(self)@.wf(),
    {
        proof {
            lemma_allocate(self@.variables, variable@);
        }
        self.variable.get_or_create(variable)
    }

    /// The number of a constructor: the one it has, or else the next
    /// number, which it is given.
    pub fn get_or_create_constructor_id(&mut self, constructor: &Constructor) -> (id: usize)
        requires
            old(self)@.wf(),
            old(self)@.with_constructor(constructor@).fits(),
        ensures
            final(self)@ == old(self)@.with_constructor(constructor@),
            final(self)@.constructors.holds(constructor@, id as nat),
            final(self)@.wf(),
    {
        proof {
            lemma_allocate(self@.constructors, constructor@);
        }
        self.constructor.get_or_create(constructor)
    }

    /// A context that has numbered nothing.
    pub fn new() -> (result: Context)
        ensures
            result@ == Numbering::empty(),
            result@.wf(),
    {
        Context { variable: IdTable::new(), constructor: IdTable::new() }
    }

    /// The context with the given numbers of variables and constructors and
    /// the given next numbers, where each listing can be a table: no name
    /// and no number twice, and every number below the next one.
    pub fn with_assignments(
        variables: &Vec<(String, usize)>,
        next_variable_id: usize,
        constructors: &Vec<(String, usize)>,
        next_constructor_id: usize,
    ) -> (result: Option<Context>)
        ensures
            result is Some <==> consistent(variables@, next_variable_id as nat) && consistent(
                constructors@,
                next_constructor_id as nat,
            ),
            result matches Some(context) ==> {
                &&& context@.wf()
                &&& lists(variables@, context@.variables)
                &&& lists(constructors@, context@.constructors)
                &&& context@.variables.next == next_variable_id as nat
                &&& context@.constructors.next == next_constructor_id as nat
            },
    {
        let variable = match IdTable::restore(variables, next_variable_id) {
            Some(table) => table,
            None => {
                return None;
            },
        };
        let constructor = match IdTable::restore(constructors, next_constructor_id) {
            Some(table) => table,
            None => {
                return None;
            },
        };
        Some(Context { variable, constructor })
    }

    /// Gives a variable the number `id`.
    ///
    /// A number at or beyond the next one to give moves the next one past
    /// it. A number that another variable has is taken from it, and that
    /// variable gets the next number: what was encoded with its old number
    /// no longer fits this context. A variable that has the number already
    /// keeps it, and nothing changes.
    pub fn set_variable(&mut self, variable: Variable, id: usize)
        requires
            old(self)@.wf(),
            old(self)@.variables.assign(variable@, id as nat).next <= usize::MAX,
        ensures
            final(self)@.variables == old(self)@.variables.assign(variable@, id as nat),
            final(self)@.constructors == old(self)@.constructors,
            final(self)@.variables.holds(variable@, id as nat),
            final(self)@.wf(),
    {
        proof {
            lemma_assign(self@.variables, variable@, id as nat);
        }
        self.variable.set(variable, id);
    }

    /// The variables that have a number, each with its number, in no
    /// stated order.
    pub fn variable_assignments(&self) -> (result: Vec<(String, usize)>)
        ensures
            lists(result@, self@.variables),
    {
        self.variable.assignments()
    }

    /// The constructors that have a number, each with its number, in no
    /// stated order.
    pub fn constructor_assignments(&self) -> (result: Vec<(String, usize)>)
        ensures
            lists(result@, self@.constructors),
    {
        self.constructor.assignments()
    }

    /// The next number that a variable would be given.
    pub fn next_variable_id(&self) -> (result: usize)
        ensures
            result as nat == self@.variables.next,
    {
        self.variable.next_id
    }

    /// The next number that a constructor would be given.
    pub fn next_constructor_id(&self) -> (result: usize)
        ensures
            result as nat == self@.constructors.next,
    {
        self.constructor.next_id
    }

    /// Gives a constructor the number `id`, as [`Context::set_variable`]
    /// does for a variable.
    pub fn set_constructor(&mut self, constructor: Constructor, id: usize)
        requires
            old(self)@.wf(),
            old(self)@.constructors.assign(constructor@, id as nat).next <= usize::MAX,
        ensures
            final(self)@.constructors == old(self)@.constructors.assign(constructor@, id as nat),
            final(self)@.variables == old(self)@.variables,
            final(self)@.constructors.holds(constructor@, id as nat),
            final(self)@.wf(),
    {
        proof {
            lemma_assign(self@.constructors, constructor@, id as nat);
        }
        self.constructor.set(constructor, id);
    }
}

impl Default for Context {
    fn default() -> (result: Context)
        ensures
            result@ == Numbering::empty(),
            result@.wf(),
    {
        Context::new()
    }
}

impl Clone for Context {
    fn clone(&self) -> (result: Context)
        ensures
            result@ == self@,
    {
        Context { variable: self.variable.duplicate(), constructor: self.constructor.duplicate() }
    }
}

/// The Peano numeral of a number.
pub fn number_to_exp(number: usize) -> (result: Exp)
    ensures
        result@ == numeral(number as nat),
    decreases number,
{
    if number == 0 {
        data0("Zero")
    } else {
        data1("Suc", number_to_exp(number - 1))
    }
}

fn decompile_raw_var(variable: &Variable, context: &mut Context) -> (result: Exp)
    requires
        old(context)@.wf(),
        old(context)@.with_variable(variable@).fits(),
    ensures
        final(context)@ == old(context)@.with_variable(variable@),
        final(context)@.wf(),
        result@ == numeral(final(context)@.variables.ids[variable@]),
{
    let id = context.get_or_create_variable_id(variable);
    number_to_exp(id)
}

fn decompile_parameters(parameters: &Vec<Variable>, context: &mut Context) -> (result: Exp)
    requires
        old(context)@.wf(),
        number_names(names_view(parameters@), old(context)@).fits(),
    ensures
        final(context)@ == number_names(names_view(parameters@), old(context)@),
        final(context)@.wf(),
        result@ == list(render_names(names_view(parameters@), final(context)@)),
{
    let ghost names = names_view(parameters@);
    let ghost end = number_names(names, context@);
    let mut result = data0("Nil");
    let mut i: usize = parameters.len();
    proof {
        assert(names.take(i as int) =~= names);
        assert(render_names(names.skip(i as int), context@) =~= Seq::<crate::syntax::Term>::empty());
    }
    while i > 0
        invariant
            i <= parameters@.len(),
            names == names_view(parameters@),
            context@.wf(),
            end.fits(),
            number_names(names.take(i as int), context@) == end,
            knows_names(names.skip(i as int), context@),
            result@ == list(render_names(names.skip(i as int), context@)),
        decreases i,
    {
        let ghost before = context@;
        let ghost done = names.skip(i as int);
        i -= 1;
        let ghost name = names[i as int];
        proof {
            assert(names.take(i + 1).drop_last() =~= names.take(i as int));
            assert(names.take(i + 1).last() == name);
            lemma_allocate(before.variables, name);
            lemma_number_names(names.take(i as int), before.with_variable(name));
        }
        let item = decompile_raw_var(&parameters[i], context);
        proof {
            let ahead = names.skip(i as int);
            lemma_render_names_stable(done, before, context@);
            assert(ahead.first() == name);
            assert(ahead.drop_first() =~= done);
            assert forall|j: int| 0 <= j < ahead.len() implies context@.variables.ids.contains_key(
                #[trigger] ahead[j],
            ) by {
                if j > 0 {
                    assert(ahead[j] == done[j - 1]);
                }
            }
            assert(render_names(ahead, context@).first() == item@);
            assert(render_names(ahead, context@).drop_first() =~= render_names(done, context@));
        }
        result = data2("Cons", item, result);
    }
    proof {
        assert(names.skip(0) =~= names);
    }
    result
}

fn decompile_exps(exps: &Vec<Exp>, context: &mut Context) -> (result: Exp)
    requires
        old(context)@.wf(),
        number_terms(terms_of(exps@), old(context)@).fits(),
    ensures
        final(context)@ == number_terms(terms_of(exps@), old(context)@),
        final(context)@.wf(),
        result@ == render_terms(terms_of(exps@), final(context)@),
    decreases exps,
{
    let ghost terms = terms_of(exps@);
    let ghost end = number_terms(terms, context@);
    let mut result = data0("Nil");
    let mut i: usize = exps.len();
    proof {
        assert(terms.take(i as int) =~= terms);
    }
    while i > 0
        invariant
            i <= exps@.len(),
            terms == terms_of(exps@),
            context@.wf(),
            end.fits(),
            number_terms(terms.take(i as int), context@) == end,
            knows_terms(terms.skip(i as int), context@),
            result@ == render_terms(terms.skip(i as int), context@),
        decreases i,
    {
        let ghost before = context@;
        let ghost done = terms.skip(i as int);
        i -= 1;
        let ghost term = terms[i as int];
        proof {
            assert(terms.take(i + 1).drop_last() =~= terms.take(i as int));
            assert(terms.take(i + 1).last() == term);
            lemma_number(term, before);
            lemma_number_terms(terms.take(i as int), number(term, before));
        }
        let item = decompile(&exps[i], context);
        proof {
            let ahead = terms.skip(i as int);
            lemma_render_terms_stable(done, before, context@);
            assert(ahead.first() == term);
            assert(ahead.drop_first() =~= done);
            assert forall|j: int| 0 <= j < ahead.len() implies crate::bootstrapping::encoding::knows(
                #[trigger] ahead[j],
                context@,
            ) by {
                if j > 0 {
                    assert(ahead[j] == done[j - 1]);
                }
            }
        }
        result = data2("Cons", item, result);
    }
    proof {
        assert(terms.skip(0) =~= terms);
    }
    result
}

fn decompile_branch(branch: &Branch, context: &mut Context) -> (result: Exp)
    requires
        old(context)@.wf(),
        number_arm(branch@, old(context)@).fits(),
    ensures
        final(context)@ == number_arm(branch@, old(context)@),
        final(context)@.wf(),
        result@ == render_arm(branch@, final(context)@),
    decreases branch,
{
    let ghost arm = branch@;
    let ghost start = context@;
    let ghost first = start.with_constructor(arm.constructor);
    let ghost second = number_names(arm.parameters, first);
    let ghost third = number(*arm.expression, second);
    proof {
        lemma_allocate(start.constructors, arm.constructor);
        lemma_number_names(arm.parameters, first);
        lemma_number(*arm.expression, second);
        lemma_extends_transitive(first, second, third);
        lemma_render_names_stable(arm.parameters, second, third);
    }
    let id = context.get_or_create_constructor_id(&branch.constructor);
    let id_result = number_to_exp(id);
    let parameters_result = decompile_parameters(&branch.parameters, context);
    let exp_result = decompile(&branch.expression, context);
    proof {
        assert(first.constructors.ids.contains_key(arm.constructor));
        assert(third.constructors.ids[arm.constructor] == id as nat);
    }
    data3("Branch", id_result, parameters_result, exp_result)
}

fn decompile_branches(branches: &Vec<Branch>, context: &mut Context) -> (result: Exp)
    requires
        old(context)@.wf(),
        number_arms(arms_of(branches@), old(context)@).fits(),
    ensures
        final(context)@ == number_arms(arms_of(branches@), old(context)@),
        final(context)@.wf(),
        result@ == render_arms(arms_of(branches@), final(context)@),
    decreases branches,
{
    let ghost arms = arms_of(branches@);
    let ghost end = number_arms(arms, context@);
    let mut result = data0("Nil");
    let mut i: usize = branches.len();
    proof {
        assert(arms.take(i as int) =~= arms);
    }
    while i > 0
        invariant
            i <= branches@.len(),
            arms == arms_of(branches@),
            context@.wf(),
            end.fits(),
            number_arms(arms.take(i as int), context@) == end,
            knows_arms(arms.skip(i as int), context@),
            result@ == render_arms(arms.skip(i as int), context@),
        decreases i,
    {
        let ghost before = context@;
        let ghost done = arms.skip(i as int);
        i -= 1;
        let ghost arm = arms[i as int];
        proof {
            assert(arms.take(i + 1).drop_last() =~= arms.take(i as int));
            assert(arms.take(i + 1).last() == arm);
            lemma_number_arm(arm, before);
            lemma_number_arms(arms.take(i as int), number_arm(arm, before));
        }
        let item = decompile_branch(&branches[i], context);
        proof {
            let ahead = arms.skip(i as int);
            lemma_render_arms_stable(done, before, context@);
            assert(ahead.first() == arm);
            assert(ahead.drop_first() =~= done);
            assert forall|j: int|
                0 <= j < ahead.len() implies crate::bootstrapping::encoding::knows_arm(
                #[trigger] ahead[j],
                context@,
            ) by {
                if j > 0 {
                    assert(ahead[j] == done[j - 1]);
                }
            }
        }
        result = data2("Cons", item, result);
    }
    proof {
        assert(arms.skip(0) =~= arms);
    }
    result
}

fn decompile_var(variable: &Variable, context: &mut Context) -> (result: Exp)
    requires
        old(context)@.wf(),
        old(context)@.with_variable(variable@).fits(),
    ensures
        final(context)@ == old(context)@.with_variable(variable@),
        final(context)@.wf(),
        result@ == render(crate::syntax::Term::Var(variable@), final(context)@),
{
    let id = context.get_or_create_variable_id(variable);
    data1("Var", number_to_exp(id))
}

/// Encodes a term as data.
///
/// The names of the term that the context has not numbered yet are
/// numbered, and the result is the term as data under the context as it
/// then stands. The context must have numbers left for them. Encoding the
/// term again changes the context no more, and gives the same data.
pub fn decompile(exp: &Exp, context: &mut Context) -> (result: Exp)
    requires
        old(context)@.wf(),
        number(exp@, old(context)@).fits(),
    ensures
        final(context)@ == number(exp@, old(context)@),
        final(context)@.wf(),
        result@ == render(exp@, final(context)@),
        number(exp@, final(context)@) == final(context)@,
    decreases exp,
{
    let ghost start = context@;
    let ghost end = number(exp@, start);
    proof {
        lemma_number(exp@, start);
        lemma_number(exp@, end);
    }
    match exp {
        Exp::Var(variable) => decompile_var(variable, context),
        Exp::Const(constructor, exps) => {
            let ghost first = start.with_constructor(constructor@);
            proof {
                lemma_const_view(*constructor, *exps);
                lemma_allocate(start.constructors, constructor@);
                lemma_number_terms(terms_of(exps@), first);
            }
            let id = context.get_or_create_constructor_id(constructor);
            let id_result = number_to_exp(id);
            let exps_result = decompile_exps(exps, context);
            proof {
                assert(first.constructors.ids.contains_key(constructor@));
            }
            data2("Const", id_result, exps_result)
        },
        Exp::Apply(f, x) => {
            let ghost first = number(f@, start);
            proof {
                lemma_number(f@, start);
                lemma_number(x@, first);
                lemma_render_stable(f@, first, end);
            }
            let f_result = decompile(f, context);
            let x_result = decompile(x, context);
            data2("Apply", f_result, x_result)
        },
        Exp::Lambda(var, body) => {
            let ghost first = start.with_variable(var@);
            proof {
                lemma_allocate(start.variables, var@);
                lemma_number(body@, first);
            }
            let id = context.get_or_create_variable_id(var);
            let id_result = number_to_exp(id);
            let body_result = decompile(body, context);
            proof {
                assert(first.variables.ids.contains_key(var@));
            }
            data2("Lambda", id_result, body_result)
        },
        Exp::Rec(var, body) => {
            let ghost first = start.with_variable(var@);
            proof {
                lemma_allocate(start.variables, var@);
                lemma_number(body@, first);
            }
            let id = context.get_or_create_variable_id(var);
            let id_result = number_to_exp(id);
            let body_result = decompile(body, context);
            proof {
                assert(first.variables.ids.contains_key(var@));
            }
            data2("Rec", id_result, body_result)
        },
        Exp::Case(scrutinee, branches) => {
            let ghost first = number(scrutinee@, start);
            proof {
                lemma_case_view(**scrutinee, *branches);
                lemma_number(scrutinee@, start);
                lemma_number_arms(arms_of(branches@), first);
                lemma_render_stable(scrutinee@, first, end);
            }
            let exp_result = decompile(scrutinee, context);
            let branches_result = decompile_branches(branches, context);
            data2("Case", exp_result, branches_result)
        },
    }
}

fn add_counts(first: Option<usize>, second: Option<usize>) -> (result: Option<usize>)
    ensures
        match result {
            Some(sum) => first is Some && second is Some && sum == first.unwrap()
                + second.unwrap(),
            None => first is None || second is None || first.unwrap() + second.unwrap()
                > usize::MAX,
        },
{
    match (first, second) {
        (Some(a), Some(b)) => {
            if a <= usize::MAX - b {
                Some(a + b)
            } else {
                None
            }
        },
        _ => None,
    }
}

fn count_names_in_exps(exps: &Vec<Exp>) -> (result: Option<usize>)
    ensures
        match result {
            Some(count) => count as nat == names_in_terms(terms_of(exps@)),
            None => names_in_terms(terms_of(exps@)) > usize::MAX,
        },
    decreases exps,
{
    let ghost terms = terms_of(exps@);
    let mut result: Option<usize> = Some(0);
    let mut i: usize = 0;
    assert(terms.take(0) =~= Seq::<crate::syntax::Term>::empty());
    while i < exps.len()
        invariant
            i <= exps@.len(),
            terms == terms_of(exps@),
            match result {
                Some(count) => count as nat == names_in_terms(terms.take(i as int)),
                None => names_in_terms(terms.take(i as int)) > usize::MAX,
            },
        decreases exps.len() - i,
    {
        proof {
            assert(terms.take(i + 1).drop_last() =~= terms.take(i as int));
            assert(terms.take(i + 1).last() == exps@[i as int]@);
        }
        result = add_counts(result, count_names(&exps[i]));
        i += 1;
    }
    assert(terms.take(i as int) =~= terms);
    result
}

fn count_names_in_branches(branches: &Vec<Branch>) -> (result: Option<usize>)
    ensures
        match result {
            Some(count) => count as nat == names_in_arms(arms_of(branches@)),
            None => names_in_arms(arms_of(branches@)) > usize::MAX,
        },
    decreases branches,
{
    let ghost arms = arms_of(branches@);
    let mut result: Option<usize> = Some(0);
    let mut i: usize = 0;
    assert(arms.take(0) =~= Seq::<crate::syntax::Arm>::empty());
    while i < branches.len()
        invariant
            i <= branches@.len(),
            arms == arms_of(branches@),
            match result {
                Some(count) => count as nat == names_in_arms(arms.take(i as int)),
                None => names_in_arms(arms.take(i as int)) > usize::MAX,
            },
        decreases branches.len() - i,
    {
        proof {
            assert(arms.take(i + 1).drop_last() =~= arms.take(i as int));
            assert(arms.take(i + 1).last() == branches@[i as int]@);
        }
        let branch = &branches[i];
        proof {
            assert(branch@.parameters.len() == branch.parameters@.len());
            assert(*branch@.expression == branch.expression@);
            assert(arms.take(i + 1).last() == branch@);
            assert(names_in_arms(arms.take(i + 1)) == names_in_arms(arms.take(i as int))
                + names_in_arm(branch@));
            assert(names_in_arm(branch@) == 1 + branch.parameters@.len() + names_in(
                branch.expression@,
            ));
        }
        let own = add_counts(Some(1), Some(branch.parameters.len()));
        let inner = add_counts(own, count_names(&branch.expression));
        result = add_counts(result, inner);
        i += 1;
    }
    assert(arms.take(i as int) =~= arms);
    result
}

/// The number of places in a term where a name stands, if it is a machine
/// number.
pub fn count_names(exp: &Exp) -> (result: Option<usize>)
    ensures
        match result {
            Some(count) => count as nat == names_in(exp@),
            None => names_in(exp@) > usize::MAX,
        },
    decreases exp,
{
    match exp {
        Exp::Var(_) => Some(1),
        Exp::Const(constructor, exps) => {
            proof {
                lemma_const_view(*constructor, *exps);
            }
            add_counts(Some(1), count_names_in_exps(exps))
        },
        Exp::Apply(f, x) => add_counts(count_names(f), count_names(x)),
        Exp::Lambda(_, body) => add_counts(Some(1), count_names(body)),
        Exp::Rec(_, body) => add_counts(Some(1), count_names(body)),
        Exp::Case(scrutinee, branches) => {
            proof {
                lemma_case_view(**scrutinee, *branches);
            }
            add_counts(count_names(scrutinee), count_names_in_branches(branches))
        },
    }
}

/// Whether the context has numbers left for every place in the term where
/// a name stands: then the term can be encoded.
pub fn has_room(exp: &Exp, context: &Context) -> (result: bool)
    ensures
        result == room_for(exp@, context@),
        result ==> number(exp@, context@).fits(),
{
    let result = match count_names(exp) {
        Some(count) => count <= usize::MAX - context.variable.next_id && count <= usize::MAX
            - context.constructor.next_id,
        None => false,
    };
    proof {
        if result {
            lemma_room_fits(exp@, context@);
        }
    }
    result
}

/// The numbering after a term, then a variable, then a replacement were
/// numbered.
pub open spec fn number_substitution(
    from: Seq<char>,
    to: crate::syntax::Term,
    term: crate::syntax::Term,
    numbering: Numbering,
) -> Numbering {
    number(to, number(term, numbering).with_variable(from))
}

/// The substitution program applied to the numeral of a variable, an
/// encoded replacement and an encoded term.
pub open spec fn substitution_call(
    from: Seq<char>,
    to: crate::syntax::Term,
    term: crate::syntax::Term,
    numbering: Numbering,
) -> crate::syntax::Term {
    app3(
        substituter(),
        numeral(numbering.variables.ids[from]),
        render(to, numbering),
        render(term, numbering),
    )
}

/// The interpreter program applied to an encoded term.
pub open spec fn interpretation_call(
    term: crate::syntax::Term,
    numbering: Numbering,
) -> crate::syntax::Term {
    app(interpreter(), render(term, numbering))
}

/// Substitutes by the substitution program of the calculus.
///
/// The term, the variable and the replacement are numbered in this order
/// and encoded, and the program is applied to the three and evaluated. What
/// the program computes is what substitution gives: the result is the
/// encoding, under the context as it then stands, of the term with the
/// replacement in place of the free occurrences of the variable.
pub fn self_substitute(from: &Variable, to: &Exp, exp: &Exp, context: &mut Context) -> (result:
    Exp)
    requires
        old(context)@.wf(),
        number_substitution(from@, to@, exp@, old(context)@).fits(),
    ensures
        final(context)@ == number_substitution(from@, to@, exp@, old(context)@),
        final(context)@.wf(),
        result@ == normal_form(substitution_call(from@, to@, exp@, final(context)@)),
        result@ == render(subst(exp@, from@, to@), final(context)@),
{
    let ghost start = context@;
    let ghost first = number(exp@, start);
    let ghost second = first.with_variable(from@);
    let ghost third = number(to@, second);
    proof {
        lemma_number(exp@, start);
        lemma_allocate(first.variables, from@);
        lemma_number(to@, second);
        lemma_extends_transitive(first, second, third);
        lemma_render_stable(exp@, first, third);
        assert(second.variables.ids.contains_key(from@));
        lemma_self_substitution(from@, to@, exp@, third);
    }
    let exp_std_form = decompile(exp, context);
    let from_std_form = decompile_raw_var(from, context);
    let to_std_form = decompile(to, context);
    let call = apply3(self_substituter(), from_std_form, to_std_form, exp_std_form);
    eval(&call)
}

/// Evaluates by the interpreter program of the calculus.
///
/// The term is numbered and encoded, and the program is applied to it and
/// evaluated. What the program computes is what evaluation gives: the
/// result is the encoding, under the context as it then stands, of the
/// normal form of the term. The term must have a normal form: on a term
/// that has none the interpreter would never return either.
pub fn self_interpret(exp: &Exp, context: &mut Context) -> (result: Exp)
    requires
        old(context)@.wf(),
        number(exp@, old(context)@).fits(),
        evaluates(exp@),
    ensures
        final(context)@ == number(exp@, old(context)@),
        final(context)@.wf(),
        result@ == normal_form(interpretation_call(exp@, final(context)@)),
        result@ == render(normal_form(exp@), final(context)@),
        number(normal_form(exp@), final(context)@) == final(context)@,
{
    proof {
        lemma_number(exp@, context@);
        lemma_self_interpretation(exp@, number(exp@, context@));
    }
    let exp_std_form = decompile(exp, context);
    let call = apply(self_interpreter(), exp_std_form);
    eval(&call)
}

} // verus!
