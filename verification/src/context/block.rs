use vstd::prelude::*;

use vstd::std_specs::cmp::PartialEqSpec;

use crate::algebra::clause::{Clause, ClauseEntries};
use crate::algebra::index_map::has_key;
use crate::context::local_map::{keys_sorted, lemma_lookup_at, lookup, LocalMap};
use crate::text::{contains_byte_pair, contains_bytes};
use vstd::utf8::encode_utf8;

verus! {

/// The kind of construct that a `break` statement leaves.
#[derive(Clone, Copy, PartialEq, Eq, Debug, Structural)]
pub enum BreakContext {
    Switch,
    Loop,
}

impl BreakContext {
    /// Whether the construct is a loop.
    pub fn is_loop(&self) -> (r: bool)
        ensures
            r <==> *self == BreakContext::Loop,
    {
        matches!(self, BreakContext::Loop)
    }

    /// Whether the construct is a `switch`.
    pub fn is_switch(&self) -> (r: bool)
        ensures
            r <==> *self == BreakContext::Switch,
    {
        matches!(self, BreakContext::Switch)
    }
}

/// What the analysis knows of the function-like body it is in.
#[derive(Clone, Copy, PartialEq, Eq, Debug, Structural)]
pub struct FunctionLikeScope {
    pub mutation_free: bool,
    pub external_mutation_free: bool,
}

/// Where a block of code stands: in a function-like body or at the top level.
#[derive(Clone, Copy, PartialEq, Eq, Debug, Structural)]
pub struct ScopeContext {
    pub function_like: Option<FunctionLikeScope>,
    pub is_static: bool,
}

impl ScopeContext {
    /// Code outside any function-like body is in the global scope.
    pub fn is_global(&self) -> (r: bool)
        ensures
            r == self.function_like is None,
    {
        self.function_like.is_none()
    }

    /// Whether the enclosing function-like body may not mutate anything.
    pub fn is_mutation_free(&self) -> (r: bool)
        ensures
            r == (self.function_like matches Some(f) && f.mutation_free),
    {
        match self.function_like {
            Some(f) => f.mutation_free,
            None => false,
        }
    }

    /// Whether the enclosing function-like body may not mutate outside state.
    pub fn is_external_mutation_free(&self) -> (r: bool)
        ensures
            r == (self.function_like matches Some(f) && f.external_mutation_free),
    {
        match self.function_like {
            Some(f) => f.external_mutation_free,
            None => false,
        }
    }
}

/// A set of variable ids.
pub type VariableSet = LocalMap<()>;

/// What the analysis knows at a point of a block: the type of each local
/// variable (`T`), the variables seen in various roles, the clauses that
/// hold, and where the block stands.
pub struct BlockContext<T> {
    pub scope: ScopeContext,
    pub locals: LocalMap<T>,
    pub static_locals: VariableSet,
    pub variables_possibly_in_scope: VariableSet,
    pub conditionally_referenced_variable_ids: VariableSet,
    pub assigned_variable_ids: LocalMap<usize>,
    pub possibly_assigned_variable_ids: VariableSet,
    pub inside_conditional: bool,
    pub inside_coalescing: bool,
    pub inside_isset: bool,
    pub inside_unset: bool,
    pub inside_class_exists: bool,
    pub inside_general_use: bool,
    pub inside_return: bool,
    pub inside_throw: bool,
    pub inside_assignment: bool,
    pub inside_assignment_operation: bool,
    pub inside_loop: bool,
    pub inside_call: bool,
    pub inside_try: bool,
    pub inside_loop_expressions: bool,
    pub inside_negation: bool,
    pub inside_variable_reference: bool,
    pub clauses: Vec<Clause>,
    pub reconciled_expression_clauses: Vec<Clause>,
    pub branch_point: Option<usize>,
    pub break_types: Vec<BreakContext>,
    pub has_returned: bool,
    pub parent_conflicting_clause_variables: VariableSet,
    pub loop_bounds: (usize, usize),
    pub for_loop_init_bounds: (usize, usize),
}

/// A variable id names something reached through an object or a class:
/// it holds `->` or `::`.
pub open spec fn is_mutable_object_var(var_id: Seq<char>) -> bool {
    contains_bytes(encode_utf8(var_id), seq![45u8, 62u8]) || contains_bytes(
        encode_utf8(var_id),
        seq![58u8, 58u8],
    )
}

/// A clause names a variable reached through an object or a class.
pub open spec fn mentions_mutable_object_var(entries: ClauseEntries) -> bool {
    exists|i: int| 0 <= i < entries.len() && is_mutable_object_var(#[trigger] entries[i].0)
}

/// A clause names one of the changed variables.
pub open spec fn mentions_changed_var(entries: ClauseEntries, changed: Seq<(Seq<char>, ())>) -> bool {
    exists|i: int| 0 <= i < entries.len() && has_key(changed, #[trigger] entries[i].0)
}

/// Whether a variable counts as redefined between two contexts: it has a
/// type in `this` that differs from its type in `new`, or it has none in
/// `new` and new variables are to be included.
pub open spec fn is_redefined<T: PartialEqSpec>(
    this: Seq<(Seq<char>, T)>,
    new: Seq<(Seq<char>, T)>,
    k: Seq<char>,
    include_new_vars: bool,
) -> bool {
    &&& lookup(this, k) is Some
    &&& match lookup(new, k) {
        Some(n) => !n.eq_spec(&lookup(this, k).unwrap()),
        None => include_new_vars,
    }
}

/// Whether a variable of the new context is new or updated there: the
/// earlier context has no type for it, its assignment counts differ, or its
/// types differ.
pub open spec fn is_new_or_updated<T: PartialEqSpec>(
    earlier_locals: Seq<(Seq<char>, T)>,
    earlier_assigned: Seq<(Seq<char>, usize)>,
    new_locals: Seq<(Seq<char>, T)>,
    new_assigned: Seq<(Seq<char>, usize)>,
    k: Seq<char>,
) -> bool {
    &&& lookup(new_locals, k) is Some
    &&& match lookup(earlier_locals, k) {
        None => true,
        Some(o) => {
            ||| lookup(earlier_assigned, k).unwrap_or(0) != lookup(new_assigned, k).unwrap_or(0)
            ||| !o.eq_spec(&lookup(new_locals, k).unwrap())
        },
    }
}

/// The clauses that survive a change to some variables, and those that do
/// not: a wedge always survives; any other clause is rejected when it names
/// a changed variable.
pub open spec fn reconciled_split(clauses: Seq<ClauseEntries>, wedges: Seq<bool>, changed: Seq<(Seq<char>, ())>) -> (Seq<int>, Seq<int>)
    decreases clauses.len(),
{
    if clauses.len() == 0 || wedges.len() != clauses.len() {
        (seq![], seq![])
    } else {
        let n = clauses.len() - 1;
        let (inc, rej) = reconciled_split(clauses.drop_last(), wedges.drop_last(), changed);
        if !wedges[n] && mentions_changed_var(clauses[n], changed) {
            (inc, rej.push(n))
        } else {
            (inc.push(n), rej)
        }
    }
}

/// The positions of the clauses that name no variable reached through an
/// object or a class.
pub open spec fn clauses_without_mutable_object_vars(clauses: Seq<ClauseEntries>) -> Seq<int>
    decreases clauses.len(),
{
    if clauses.len() == 0 {
        seq![]
    } else {
        let n = clauses.len() - 1;
        let rest = clauses_without_mutable_object_vars(clauses.drop_last());
        if mentions_mutable_object_var(clauses[n]) {
            rest
        } else {
            rest.push(n)
        }
    }
}

/// The entries of each clause.
pub open spec fn clause_entries(clauses: Seq<Clause>) -> Seq<ClauseEntries> {
    clauses.map_values(|c: Clause| c.entries())
}

/// The wedge flag of each clause.
pub open spec fn clause_wedges(clauses: Seq<Clause>) -> Seq<bool> {
    clauses.map_values(|c: Clause| c.wedge)
}

/// `picked` are copies of the clauses at `indices`.
pub open spec fn copies_of(picked: Seq<Clause>, clauses: Seq<Clause>, indices: Seq<int>) -> bool {
    &&& picked.len() == indices.len()
    &&& forall|i: int|
        0 <= i < picked.len() ==> 0 <= #[trigger] indices[i] < clauses.len() && picked[i].entries()
            == clauses[indices[i]].entries() && picked[i].hash == clauses[indices[i]].hash
            && picked[i].wedge == clauses[indices[i]].wedge && picked[i].reconcilable
            == clauses[indices[i]].reconcilable && picked[i].generated
            == clauses[indices[i]].generated && picked[i].span == clauses[indices[i]].span
            && picked[i].condition_span == clauses[indices[i]].condition_span
}

/// Whether a clause names one of the changed variables, by a loop over its
/// variables.
fn clause_mentions_changed(clause: &Clause, changed_var_ids: &VariableSet) -> (r: bool)
    ensures
        r == mentions_changed_var(clause.entries(), changed_var_ids@),
{
    let keys = crate::algebra::index_map::possibilities_keys(&clause.possibilities);
    let ghost es = clause.entries();
    let n = keys.len();
    for i in 0..n
        invariant
            n == keys@.len() == es.len(),
            es == clause.entries(),
            forall|t: int| 0 <= t < n ==> (#[trigger] keys@[t])@ == es[t].0,
            forall|t: int| 0 <= t < i ==> !has_key(changed_var_ids@, (#[trigger] es[t]).0),
    {
        if changed_var_ids.contains_key(keys[i].as_str()) {
            assert(has_key(changed_var_ids@, es[i as int].0));
            return true;
        }
    }
    false
}

/// Whether a clause names a variable reached through an object or a class.
fn clause_mentions_mutable_object_var(clause: &Clause) -> (r: bool)
    ensures
        r == mentions_mutable_object_var(clause.entries()),
{
    let keys = crate::algebra::index_map::possibilities_keys(&clause.possibilities);
    let ghost es = clause.entries();
    let n = keys.len();
    for i in 0..n
        invariant
            n == keys@.len() == es.len(),
            es == clause.entries(),
            forall|t: int| 0 <= t < n ==> (#[trigger] keys@[t])@ == es[t].0,
            forall|t: int| 0 <= t < i ==> !is_mutable_object_var((#[trigger] es[t]).0),
    {
        if is_mutable_object_var_exec(keys[i].as_str()) {
            assert(is_mutable_object_var(es[i as int].0));
            return true;
        }
    }
    false
}

/// Whether a variable id holds `->` or `::`.
fn is_mutable_object_var_exec(var_id: &str) -> (r: bool)
    ensures
        r == is_mutable_object_var(var_id@),
{
    contains_byte_pair(var_id, 45u8, 62u8) || contains_byte_pair(var_id, 58u8, 58u8)
}

/// An empty variable set.
fn empty_set() -> (r: VariableSet)
    ensures
        r@ == Seq::<(Seq<char>, ())>::empty(),
{
    LocalMap::new()
}

impl<T> BlockContext<T> {
    /// A fresh context for a block in the given scope: nothing known, no
    /// flags set.
    pub fn new(scope: ScopeContext) -> (r: Self)
        ensures
            r.scope == scope,
            r.locals@.len() == 0,
            r.static_locals@.len() == 0,
            r.variables_possibly_in_scope@.len() == 0,
            r.conditionally_referenced_variable_ids@.len() == 0,
            r.assigned_variable_ids@.len() == 0,
            r.possibly_assigned_variable_ids@.len() == 0,
            r.parent_conflicting_clause_variables@.len() == 0,
            !r.inside_conditional && !r.inside_coalescing && !r.inside_isset && !r.inside_unset
                && !r.inside_class_exists && !r.inside_general_use && !r.inside_return
                && !r.inside_throw && !r.inside_assignment && !r.inside_assignment_operation
                && !r.inside_loop && !r.inside_call && !r.inside_try && !r.inside_loop_expressions
                && !r.inside_negation && !r.inside_variable_reference && !r.has_returned,
            r.clauses@.len() == 0,
            r.reconciled_expression_clauses@.len() == 0,
            r.branch_point is None,
            r.break_types@.len() == 0,
            r.loop_bounds == (0usize, 0usize),
            r.for_loop_init_bounds == (0usize, 0usize),
    {
        BlockContext {
            scope,
            locals: LocalMap::new(),
            static_locals: empty_set(),
            variables_possibly_in_scope: empty_set(),
            conditionally_referenced_variable_ids: empty_set(),
            assigned_variable_ids: LocalMap::new(),
            possibly_assigned_variable_ids: empty_set(),
            inside_conditional: false,
            inside_coalescing: false,
            inside_isset: false,
            inside_unset: false,
            inside_class_exists: false,
            inside_general_use: false,
            inside_return: false,
            inside_throw: false,
            inside_assignment: false,
            inside_assignment_operation: false,
            inside_loop_expressions: false,
            inside_negation: false,
            inside_call: false,
            inside_try: false,
            inside_variable_reference: false,
            has_returned: false,
            clauses: Vec::new(),
            reconciled_expression_clauses: Vec::new(),
            branch_point: None,
            break_types: Vec::new(),
            inside_loop: false,
            parent_conflicting_clause_variables: empty_set(),
            loop_bounds: (0, 0),
            for_loop_init_bounds: (0, 0),
        }
    }

    /// Whether the block is in the global scope.
    pub fn is_global_scope(&self) -> (r: bool)
        ensures
            r == self.scope.function_like is None,
    {
        self.scope.is_global()
    }

    /// Whether the block is in a body that may not mutate anything.
    pub fn is_mutation_free(&self) -> (r: bool)
        ensures
            r == (self.scope.function_like matches Some(f) && f.mutation_free),
    {
        self.scope.is_mutation_free()
    }

    /// Whether the block is in a body that may not mutate outside state.
    pub fn is_external_mutation_free(&self) -> (r: bool)
        ensures
            r == (self.scope.function_like matches Some(f) && f.external_mutation_free),
    {
        self.scope.is_external_mutation_free()
    }

    /// Records that a variable is referenced under a condition, and tells
    /// whether it has a type here.
    pub fn has_variable(&mut self, var_name: &str) -> (r: bool)
        ensures
            r == has_key(old(self).locals@, var_name@),
            final(self).locals@ == old(self).locals@,
            has_key(final(self).conditionally_referenced_variable_ids@, var_name@),
            forall|k: Seq<char>|
                k != var_name@ ==> lookup(final(self).conditionally_referenced_variable_ids@, k)
                    == lookup(old(self).conditionally_referenced_variable_ids@, k),
            *final(self) == (BlockContext {
                conditionally_referenced_variable_ids: final(self).conditionally_referenced_variable_ids,
                ..*old(self)
            }),
    {
        self.conditionally_referenced_variable_ids.insert(var_name.to_owned(), ());
        self.locals.contains_key(var_name)
    }

    /// Forgets everything about a variable that might be a reference: its
    /// type, and its place among the variables possibly in scope, assigned,
    /// possibly assigned and conditionally referenced.
    pub fn remove_possible_reference(&mut self, remove_var_id: &String)
        ensures
            lookup(final(self).locals@, remove_var_id@) is None,
            lookup(final(self).variables_possibly_in_scope@, remove_var_id@) is None,
            lookup(final(self).assigned_variable_ids@, remove_var_id@) is None,
            lookup(final(self).possibly_assigned_variable_ids@, remove_var_id@) is None,
            lookup(final(self).conditionally_referenced_variable_ids@, remove_var_id@) is None,
            forall|k: Seq<char>|
                k != remove_var_id@ ==> {
                    &&& lookup(final(self).locals@, k) == lookup(old(self).locals@, k)
                    &&& lookup(final(self).variables_possibly_in_scope@, k) == lookup(
                        old(self).variables_possibly_in_scope@,
                        k,
                    )
                    &&& lookup(final(self).assigned_variable_ids@, k) == lookup(
                        old(self).assigned_variable_ids@,
                        k,
                    )
                    &&& lookup(final(self).possibly_assigned_variable_ids@, k) == lookup(
                        old(self).possibly_assigned_variable_ids@,
                        k,
                    )
                    &&& lookup(final(self).conditionally_referenced_variable_ids@, k) == lookup(
                        old(self).conditionally_referenced_variable_ids@,
                        k,
                    )
                },
            *final(self) == (BlockContext {
                locals: final(self).locals,
                variables_possibly_in_scope: final(self).variables_possibly_in_scope,
                assigned_variable_ids: final(self).assigned_variable_ids,
                possibly_assigned_variable_ids: final(self).possibly_assigned_variable_ids,
                conditionally_referenced_variable_ids: final(self).conditionally_referenced_variable_ids,
                ..*old(self)
            }),
    {
        let key = remove_var_id.as_str();
        self.locals.remove(key);
        self.variables_possibly_in_scope.remove(key);
        self.assigned_variable_ids.remove(key);
        self.possibly_assigned_variable_ids.remove(key);
        self.conditionally_referenced_variable_ids.remove(key);
    }

    /// The variables whose type in this context is redefined relative to
    /// `new_locals`, each with a copy of its type here: those typed in both
    /// contexts with types that differ, and, when `include_new_vars` is set,
    /// those typed here only. The variables typed in `new_locals` only are
    /// added to `removed_vars`.
    pub fn get_redefined_locals(
        &self,
        new_locals: &LocalMap<T>,
        include_new_vars: bool,
        removed_vars: &mut VariableSet,
    ) -> (r: LocalMap<T>) where T: PartialEq + Clone
        ensures
            forall|k: Seq<char>|
                #![trigger lookup(r@, k)]
                lookup(r@, k) matches Some(v) ==> lookup(self.locals@, k) matches Some(t) && cloned(t, v)
                    && (lookup(new_locals@, k) is None ==> include_new_vars),
            T::obeys_eq_spec() ==> forall|k: Seq<char>|
                #![trigger lookup(r@, k)]
                (lookup(r@, k) is Some <==> is_redefined(self.locals@, new_locals@, k, include_new_vars)),
            forall|k: Seq<char>|
                #![trigger lookup(final(removed_vars)@, k)]
                (lookup(final(removed_vars)@, k) is Some <==> (lookup(old(removed_vars)@, k) is Some || (
                lookup(new_locals@, k) is Some && lookup(self.locals@, k) is None))),
    {
        let mut redefined_vars: LocalMap<T> = LocalMap::new();
        let n = self.locals.len();
        for i in 0..n
            invariant
                n == self.locals@.len(),
                keys_sorted(self.locals@),
                forall|k: Seq<char>|
                    #![trigger lookup(redefined_vars@, k)]
                    lookup(redefined_vars@, k) matches Some(v) ==> lookup(self.locals@, k) matches Some(t)
                        && cloned(t, v) && (lookup(new_locals@, k) is None ==> include_new_vars),
                T::obeys_eq_spec() ==> forall|k: Seq<char>|
                    #![trigger lookup(redefined_vars@, k)]
                    (lookup(redefined_vars@, k) is Some <==> (is_redefined(
                        self.locals@,
                        new_locals@,
                        k,
                        include_new_vars,
                    ) && exists|j: int| 0 <= j < i && (#[trigger] self.locals@[j]).0 == k)),
        {
            let (var_id, this_type) = self.locals.entry_at(i);
            proof {
                lemma_lookup_at(self.locals@, i as int);
            }
            self.consider_redefinition(var_id, this_type, new_locals, include_new_vars, &mut redefined_vars);
            proof {
                if T::obeys_eq_spec() {
                    assert forall|k: Seq<char>| #![trigger lookup(redefined_vars@, k)]
                        (lookup(redefined_vars@, k) is Some <==> (is_redefined(
                        self.locals@,
                        new_locals@,
                        k,
                        include_new_vars,
                    ) && exists|j: int| 0 <= j < i + 1 && (#[trigger] self.locals@[j]).0 == k)) by {
                        if k == var_id@ {
                            assert(self.locals@[i as int].0 == k);
                        }
                    }
                }
            }
        }
        proof {
            if T::obeys_eq_spec() {
                assert forall|k: Seq<char>| #![trigger lookup(redefined_vars@, k)]
                    (lookup(redefined_vars@, k) is Some <==> is_redefined(
                    self.locals@,
                    new_locals@,
                    k,
                    include_new_vars,
                )) by {
                    if is_redefined(self.locals@, new_locals@, k, include_new_vars) {
                        let j = choose|j: int| 0 <= j < self.locals@.len() && (#[trigger] self.locals@[j]).0 == k;
                    }
                }
            }
        }
        let m = new_locals.len();
        for j in 0..m
            invariant
                m == new_locals@.len(),
                keys_sorted(new_locals@),
                forall|k: Seq<char>|
                    #![trigger lookup(redefined_vars@, k)]
                    lookup(redefined_vars@, k) matches Some(v) ==> lookup(self.locals@, k) matches Some(t)
                        && cloned(t, v) && (lookup(new_locals@, k) is None ==> include_new_vars),
                T::obeys_eq_spec() ==> forall|k: Seq<char>|
                    #![trigger lookup(redefined_vars@, k)]
                    (lookup(redefined_vars@, k) is Some <==> is_redefined(
                        self.locals@,
                        new_locals@,
                        k,
                        include_new_vars,
                    )),
                forall|k: Seq<char>|
                    #![trigger lookup(removed_vars@, k)]
                    (lookup(removed_vars@, k) is Some <==> (lookup(old(removed_vars)@, k) is Some || (
                    lookup(self.locals@, k) is None && exists|t: int| 0 <= t < j && (#[trigger] new_locals@[t]).0 == k))),
        {
            let (var_id, _) = new_locals.entry_at(j);
            proof {
                lemma_lookup_at(new_locals@, j as int);
            }
            match self.locals.get(var_id.as_str()) {
                Some(this_type) => {
                    self.consider_redefinition(var_id, this_type, new_locals, include_new_vars, &mut redefined_vars);
                },
                None => {
                    removed_vars.insert(var_id.clone(), ());
                },
            }
            proof {
                assert forall|k: Seq<char>| #![trigger lookup(removed_vars@, k)]
                    (lookup(removed_vars@, k) is Some <==> (lookup(old(removed_vars)@, k) is Some || (
                    lookup(self.locals@, k) is None && exists|t: int| 0 <= t < j + 1 && (#[trigger] new_locals@[t]).0 == k))) by {
                    if k == var_id@ {
                        assert(new_locals@[j as int].0 == k);
                    }
                }
            }
        }
        proof {
            assert forall|k: Seq<char>| #![trigger lookup(removed_vars@, k)]
                (lookup(removed_vars@, k) is Some <==> (lookup(old(removed_vars)@, k) is Some || (
                lookup(new_locals@, k) is Some && lookup(self.locals@, k) is None))) by {
                if lookup(new_locals@, k) is Some {
                    let t = choose|t: int| 0 <= t < new_locals@.len() && (#[trigger] new_locals@[t]).0 == k;
                }
            }
        }
        redefined_vars
    }

    /// One step of `get_redefined_locals`: records `var_id` with a copy of
    /// its type here when its type in `new_locals` differs, or when it has
    /// none there and new variables are included.
    fn consider_redefinition(
        &self,
        var_id: &String,
        this_type: &T,
        new_locals: &LocalMap<T>,
        include_new_vars: bool,
        redefined_vars: &mut LocalMap<T>,
    ) where T: PartialEq + Clone
        requires
            lookup(self.locals@, var_id@) == Some(*this_type),
            forall|k: Seq<char>|
                #![trigger lookup(old(redefined_vars)@, k)]
                lookup(old(redefined_vars)@, k) matches Some(v) ==> lookup(self.locals@, k) matches Some(t)
                    && cloned(t, v) && (lookup(new_locals@, k) is None ==> include_new_vars),
        ensures
            forall|k: Seq<char>|
                #![trigger lookup(final(redefined_vars)@, k)]
                lookup(final(redefined_vars)@, k) matches Some(v) ==> lookup(self.locals@, k) matches Some(t)
                    && cloned(t, v) && (lookup(new_locals@, k) is None ==> include_new_vars),
            forall|k: Seq<char>|
                k != var_id@ ==> #[trigger] lookup(final(redefined_vars)@, k) == lookup(old(redefined_vars)@, k),
            T::obeys_eq_spec() ==> (is_redefined(self.locals@, new_locals@, var_id@, include_new_vars)
                ==> lookup(final(redefined_vars)@, var_id@) is Some),
            T::obeys_eq_spec() ==> (!is_redefined(self.locals@, new_locals@, var_id@, include_new_vars)
                ==> lookup(final(redefined_vars)@, var_id@) == lookup(old(redefined_vars)@, var_id@)),
    {
        match new_locals.get(var_id.as_str()) {
            Some(new_type) => {
                if new_type != this_type {
                    redefined_vars.insert(var_id.clone(), this_type.clone());
                }
            },
            None => {
                if include_new_vars {
                    redefined_vars.insert(var_id.clone(), this_type.clone());
                }
            },
        }
    }

    /// The variables typed in `new_context` that are new or updated there
    /// relative to `earlier_context`: untyped in the earlier context, or
    /// with a different assignment count (a missing count being 0), or with
    /// a different type.
    pub fn get_new_or_updated_locals(earlier_context: &Self, new_context: &Self) -> (r: VariableSet) where
        T: PartialEq,
        ensures
            forall|k: Seq<char>|
                #![trigger lookup(r@, k)]
                lookup(r@, k) is Some ==> lookup(new_context.locals@, k) is Some,
            T::obeys_eq_spec() ==> forall|k: Seq<char>|
                #![trigger lookup(r@, k)]
                (lookup(r@, k) is Some <==> is_new_or_updated(
                    earlier_context.locals@,
                    earlier_context.assigned_variable_ids@,
                    new_context.locals@,
                    new_context.assigned_variable_ids@,
                    k,
                )),
    {
        let mut redefined_var_ids = empty_set();
        let n = new_context.locals.len();
        for i in 0..n
            invariant
                n == new_context.locals@.len(),
                keys_sorted(new_context.locals@),
                forall|k: Seq<char>|
                    #![trigger lookup(redefined_var_ids@, k)]
                    lookup(redefined_var_ids@, k) is Some ==> exists|j: int| 0 <= j < i && (#[trigger] new_context.locals@[j]).0 == k,
                T::obeys_eq_spec() ==> forall|k: Seq<char>|
                    #![trigger lookup(redefined_var_ids@, k)]
                    (lookup(redefined_var_ids@, k) is Some <==> (is_new_or_updated(
                        earlier_context.locals@,
                        earlier_context.assigned_variable_ids@,
                        new_context.locals@,
                        new_context.assigned_variable_ids@,
                        k,
                    ) && exists|j: int| 0 <= j < i && (#[trigger] new_context.locals@[j]).0 == k)),
        {
            let (var_id, new_type) = new_context.locals.entry_at(i);
            proof {
                lemma_lookup_at(new_context.locals@, i as int);
            }
            let key = var_id.as_str();
            match earlier_context.locals.get(key) {
                Some(earlier_type) => {
                    let earlier_count: usize = match earlier_context.assigned_variable_ids.get(key) {
                        Some(c) => *c,
                        None => 0,
                    };
                    let new_count: usize = match new_context.assigned_variable_ids.get(key) {
                        Some(c) => *c,
                        None => 0,
                    };
                    if earlier_count != new_count || earlier_type != new_type {
                        redefined_var_ids.insert(var_id.clone(), ());
                    }
                },
                None => {
                    redefined_var_ids.insert(var_id.clone(), ());
                },
            }
            proof {
                assert(new_context.locals@[i as int].0 == key@);
                assert forall|k: Seq<char>| #![trigger lookup(redefined_var_ids@, k)]
                    lookup(redefined_var_ids@, k) is Some implies exists|j: int| 0 <= j < i + 1 && (#[trigger] new_context.locals@[j]).0 == k by {
                    if k == key@ {
                        assert(new_context.locals@[i as int].0 == k);
                    }
                }
                if T::obeys_eq_spec() {
                    assert forall|k: Seq<char>| #![trigger lookup(redefined_var_ids@, k)]
                        (lookup(redefined_var_ids@, k) is Some <==> (is_new_or_updated(
                        earlier_context.locals@,
                        earlier_context.assigned_variable_ids@,
                        new_context.locals@,
                        new_context.assigned_variable_ids@,
                        k,
                    ) && exists|j: int| 0 <= j < i + 1 && (#[trigger] new_context.locals@[j]).0 == k)) by {
                        if k == key@ {
                            assert(new_context.locals@[i as int].0 == k);
                        }
                    }
                }
            }
        }
        proof {
            assert forall|k: Seq<char>| #![trigger lookup(redefined_var_ids@, k)]
                lookup(redefined_var_ids@, k) is Some implies lookup(new_context.locals@, k) is Some by {
                let j = choose|j: int| 0 <= j < n && (#[trigger] new_context.locals@[j]).0 == k;
                lemma_lookup_at(new_context.locals@, j);
            }
            if T::obeys_eq_spec() {
                assert forall|k: Seq<char>| #![trigger lookup(redefined_var_ids@, k)]
                    (lookup(redefined_var_ids@, k) is Some <==> is_new_or_updated(
                    earlier_context.locals@,
                    earlier_context.assigned_variable_ids@,
                    new_context.locals@,
                    new_context.assigned_variable_ids@,
                    k,
                )) by {
                    if lookup(new_context.locals@, k) is Some {
                        let j = choose|j: int| 0 <= j < n && (#[trigger] new_context.locals@[j]).0 == k;
                    }
                }
            }
        }
        redefined_var_ids
    }

    /// Forgets the variables reached through an object or a class (ids with
    /// `->` or `::`), which a call may change; when there were any, also
    /// drops every clause that names such a variable.
    pub fn remove_mutable_object_vars(&mut self)
        ensures
            forall|k: Seq<char>|
                #![trigger lookup(final(self).locals@, k)]
                lookup(final(self).locals@, k) == if is_mutable_object_var(k) {
                    None
                } else {
                    lookup(old(self).locals@, k)
                },
            (exists|i: int|
                0 <= i < old(self).locals@.len() && is_mutable_object_var(
                    (#[trigger] old(self).locals@[i]).0,
                )) ==> copies_of(
                final(self).clauses@,
                old(self).clauses@,
                clauses_without_mutable_object_vars(clause_entries(old(self).clauses@)),
            ),
            !(exists|i: int|
                0 <= i < old(self).locals@.len() && is_mutable_object_var(
                    (#[trigger] old(self).locals@[i]).0,
                )) ==> final(self).clauses == old(self).clauses,
            only_locals_and_clauses_changed(*final(self), *old(self)),
    {
        let ghost before = *self;
        let any = forget_mutable_locals(self);
        let ghost middle = *self;
        if any {
            drop_mutable_clauses(self);
            proof {
                lemma_locals_then_clauses(before, middle, *self);
            }
        } else {
            proof {
                lemma_locals_only(before, middle);
            }
        }
    }

    /// Splits clauses after some variables changed: wedges and the clauses
    /// that name none of the changed variables are kept, the others rejected,
    /// each list in the given order.
    pub fn remove_reconciled_clauses(clauses: &Vec<Clause>, changed_var_ids: &VariableSet) -> (r: (
        Vec<Clause>,
        Vec<Clause>,
    ))
        ensures
            copies_of(
                r.0@,
                clauses@,
                reconciled_split(clause_entries(clauses@), clause_wedges(clauses@), changed_var_ids@).0,
            ),
            copies_of(
                r.1@,
                clauses@,
                reconciled_split(clause_entries(clauses@), clause_wedges(clauses@), changed_var_ids@).1,
            ),
    {
        let mut included_clauses: Vec<Clause> = Vec::new();
        let mut rejected_clauses: Vec<Clause> = Vec::new();
        let n = clauses.len();
        for i in 0..n
            invariant
                n == clauses@.len(),
                copies_of(
                    included_clauses@,
                    clauses@,
                    reconciled_split(
                        clause_entries(clauses@.take(i as int)),
                        clause_wedges(clauses@.take(i as int)),
                        changed_var_ids@,
                    ).0,
                ),
                copies_of(
                    rejected_clauses@,
                    clauses@,
                    reconciled_split(
                        clause_entries(clauses@.take(i as int)),
                        clause_wedges(clauses@.take(i as int)),
                        changed_var_ids@,
                    ).1,
                ),
        {
            let ghost pre = clauses@.take(i as int);
            let ghost post = clauses@.take(i + 1);
            proof {
                assert(clause_entries(post).drop_last() =~= clause_entries(pre));
                assert(clause_wedges(post).drop_last() =~= clause_wedges(pre));
                assert(clause_entries(post)[i as int] == clauses@[i as int].entries());
                assert(clause_wedges(post)[i as int] == clauses@[i as int].wedge);
            }
            let c = &clauses[i];
            if !c.wedge && clause_mentions_changed(c, changed_var_ids) {
                let ghost before = rejected_clauses@;
                rejected_clauses.push(c.clone());
                proof {
                    let idx = reconciled_split(clause_entries(post), clause_wedges(post), changed_var_ids@).1;
                    assert(idx == reconciled_split(clause_entries(pre), clause_wedges(pre), changed_var_ids@).1.push(i as int));
                    assert forall|t: int| 0 <= t < rejected_clauses@.len() implies 0 <= #[trigger] idx[t] < clauses@.len()
                        && rejected_clauses@[t].entries() == clauses@[idx[t]].entries() && rejected_clauses@[t].hash
                        == clauses@[idx[t]].hash && rejected_clauses@[t].wedge == clauses@[idx[t]].wedge
                        && rejected_clauses@[t].reconcilable == clauses@[idx[t]].reconcilable
                        && rejected_clauses@[t].generated == clauses@[idx[t]].generated
                        && rejected_clauses@[t].span == clauses@[idx[t]].span
                        && rejected_clauses@[t].condition_span == clauses@[idx[t]].condition_span by {
                        if t < before.len() {
                            assert(rejected_clauses@[t] == before[t]);
                        }
                    }
                }
            } else {
                let ghost before = included_clauses@;
                included_clauses.push(c.clone());
                proof {
                    let idx = reconciled_split(clause_entries(post), clause_wedges(post), changed_var_ids@).0;
                    assert(idx == reconciled_split(clause_entries(pre), clause_wedges(pre), changed_var_ids@).0.push(i as int));
                    assert forall|t: int| 0 <= t < included_clauses@.len() implies 0 <= #[trigger] idx[t] < clauses@.len()
                        && included_clauses@[t].entries() == clauses@[idx[t]].entries() && included_clauses@[t].hash
                        == clauses@[idx[t]].hash && included_clauses@[t].wedge == clauses@[idx[t]].wedge
                        && included_clauses@[t].reconcilable == clauses@[idx[t]].reconcilable
                        && included_clauses@[t].generated == clauses@[idx[t]].generated
                        && included_clauses@[t].span == clauses@[idx[t]].span
                        && included_clauses@[t].condition_span == clauses@[idx[t]].condition_span by {
                        if t < before.len() {
                            assert(included_clauses@[t] == before[t]);
                        }
                    }
                }
            }
        }
        assert(clauses@.take(n as int) =~= clauses@);
        (included_clauses, rejected_clauses)
    }
}


/// `after` differs from `before` at most in its variable types and clauses.
#[verifier::opaque]
pub open spec fn only_locals_and_clauses_changed<T>(after: BlockContext<T>, before: BlockContext<T>) -> bool {
    after == (BlockContext { locals: after.locals, clauses: after.clauses, ..before })
}

/// `after` differs from `before` at most in its variable types.
#[verifier::opaque]
spec fn only_locals_changed<T>(after: BlockContext<T>, before: BlockContext<T>) -> bool {
    after == (BlockContext { locals: after.locals, ..before })
}

/// `after` differs from `before` at most in its clauses.
#[verifier::opaque]
spec fn only_clauses_changed<T>(after: BlockContext<T>, before: BlockContext<T>) -> bool {
    after == (BlockContext { clauses: after.clauses, ..before })
}

proof fn lemma_locals_then_clauses<T>(a: BlockContext<T>, b: BlockContext<T>, c: BlockContext<T>)
    requires
        only_locals_changed(b, a),
        only_clauses_changed(c, b),
    ensures
        only_locals_and_clauses_changed(c, a),
{
    reveal(only_locals_changed);
    reveal(only_clauses_changed);
    reveal(only_locals_and_clauses_changed);
}

proof fn lemma_locals_only<T>(a: BlockContext<T>, b: BlockContext<T>)
    requires
        only_locals_changed(b, a),
    ensures
        only_locals_and_clauses_changed(b, a),
{
    reveal(only_locals_changed);
    reveal(only_locals_and_clauses_changed);
}

/// Forgets the context's variables reached through an object or a class,
/// and tells whether there were any.
fn forget_mutable_locals<T>(b: &mut BlockContext<T>) -> (r: bool)
    ensures
        forall|k: Seq<char>|
            #![trigger lookup(final(b).locals@, k)]
            lookup(final(b).locals@, k) == if is_mutable_object_var(k) {
                None
            } else {
                lookup(old(b).locals@, k)
            },
        r == exists|i: int|
            0 <= i < old(b).locals@.len() && is_mutable_object_var((#[trigger] old(b).locals@[i]).0),
        final(b).clauses == old(b).clauses,
        only_locals_changed(*final(b), *old(b)),
{
    let r = remove_mutable_locals(&mut b.locals);
    assert(only_locals_changed(*b, *old(b))) by {
        reveal(only_locals_changed);
    }
    r
}

/// Drops the context's clauses that name a variable reached through an
/// object or a class.
fn drop_mutable_clauses<T>(b: &mut BlockContext<T>)
    ensures
        copies_of(final(b).clauses@, old(b).clauses@, clauses_without_mutable_object_vars(clause_entries(old(b).clauses@))),
        final(b).locals == old(b).locals,
        only_clauses_changed(*final(b), *old(b)),
{
    let kept = clauses_without_mutable_vars(&b.clauses);
    b.clauses = kept;
    assert(only_clauses_changed(*b, *old(b))) by {
        reveal(only_clauses_changed);
    }
}

/// Removes the variables reached through an object or a class from
/// `locals`, and tells whether there were any.
fn remove_mutable_locals<T>(locals: &mut LocalMap<T>) -> (r: bool)
    ensures
        forall|k: Seq<char>|
            #![trigger lookup(final(locals)@, k)]
            lookup(final(locals)@, k) == if is_mutable_object_var(k) {
                None
            } else {
                lookup(old(locals)@, k)
            },
        r == exists|i: int|
            0 <= i < old(locals)@.len() && is_mutable_object_var((#[trigger] old(locals)@[i]).0),
{
    let mut removed_var_ids: Vec<String> = Vec::new();
    let n = locals.len();
    for i in 0..n
        invariant
            n == locals@.len(),
            *locals == *old(locals),
            removed_var_ids@.len() <= i,
            forall|t: int| 0 <= t < removed_var_ids@.len() ==> has_key(locals@, #[trigger] removed_var_ids@[t]@)
                && is_mutable_object_var(removed_var_ids@[t]@),
            forall|j: int| 0 <= j < i && is_mutable_object_var((#[trigger] locals@[j]).0) ==> exists|t: int| 0 <= t < removed_var_ids@.len() && (#[trigger] removed_var_ids@[t])@ == locals@[j].0,
    {
        let (var_id, _) = locals.entry_at(i);
        if is_mutable_object_var_exec(var_id.as_str()) {
            let ghost before = removed_var_ids@;
            removed_var_ids.push(var_id.clone());
            proof {
                assert(has_key(locals@, var_id@)) by {
                    assert(locals@[i as int].0 == var_id@);
                }
                assert forall|j: int| 0 <= j < i + 1 && is_mutable_object_var((#[trigger] locals@[j]).0) implies exists|t: int| 0 <= t < removed_var_ids@.len() && (#[trigger] removed_var_ids@[t])@ == locals@[j].0 by {
                    if j < i {
                        let t = choose|t: int| 0 <= t < before.len() && (#[trigger] before[t])@ == locals@[j].0;
                        assert(removed_var_ids@[t] == before[t]);
                    } else {
                        assert(removed_var_ids@[before.len() as int]@ == var_id@);
                    }
                }
            }
        }
    }
    let ghost old_locals = locals@;
    let m = removed_var_ids.len();
    for t in 0..m
        invariant
            m == removed_var_ids@.len(),
            old_locals == old(locals)@,
            forall|u: int| 0 <= u < m ==> is_mutable_object_var((#[trigger] removed_var_ids@[u])@),
            forall|k: Seq<char>|
                #![trigger lookup(locals@, k)]
                lookup(locals@, k) == if exists|u: int| 0 <= u < t && (#[trigger] removed_var_ids@[u])@ == k {
                    None
                } else {
                    lookup(old_locals, k)
                },
    {
        let ghost before = locals@;
        locals.remove(removed_var_ids[t].as_str());
        proof {
            assert forall|k: Seq<char>| #![trigger lookup(locals@, k)]
                lookup(locals@, k) == if exists|u: int| 0 <= u < t + 1 && (#[trigger] removed_var_ids@[u])@ == k {
                    None
                } else {
                    lookup(old_locals, k)
                } by {
                if k == removed_var_ids@[t as int]@ {
                    assert(!has_key(locals@, k));
                } else {
                    if exists|u: int| 0 <= u < t + 1 && (#[trigger] removed_var_ids@[u])@ == k {
                        let u = choose|u: int| 0 <= u < t + 1 && (#[trigger] removed_var_ids@[u])@ == k;
                        assert(u < t);
                    }
                }
            }
        }
    }
    proof {
        assert forall|k: Seq<char>| #![trigger lookup(locals@, k)]
            lookup(locals@, k) == if is_mutable_object_var(k) {
                None
            } else {
                lookup(old_locals, k)
            } by {
            if is_mutable_object_var(k) && lookup(old_locals, k) is Some {
                let j = choose|j: int| 0 <= j < old_locals.len() && (#[trigger] old_locals[j]).0 == k;
                let u = choose|u: int| 0 <= u < removed_var_ids@.len() && (#[trigger] removed_var_ids@[u])@ == old_locals[j].0;
            }
            if is_mutable_object_var(k) && lookup(old_locals, k) is None {
                if exists|u: int| 0 <= u < m && (#[trigger] removed_var_ids@[u])@ == k {
                    let u = choose|u: int| 0 <= u < m && (#[trigger] removed_var_ids@[u])@ == k;
                    assert(has_key(old_locals, k));
                }
            }
            if !is_mutable_object_var(k) {
                if exists|u: int| 0 <= u < m && (#[trigger] removed_var_ids@[u])@ == k {
                    let u = choose|u: int| 0 <= u < m && (#[trigger] removed_var_ids@[u])@ == k;
                }
            }
        }
    }
    if removed_var_ids.len() == 0 {
        proof {
            assert forall|i: int| 0 <= i < old_locals.len() implies !is_mutable_object_var((#[trigger] old_locals[i]).0) by {
                if is_mutable_object_var(old_locals[i].0) {
                    let t = choose|t: int| 0 <= t < removed_var_ids@.len() && (#[trigger] removed_var_ids@[t])@ == old_locals[i].0;
                }
            }
        }
        return false;
    }
    proof {
        let k = removed_var_ids@[0]@;
        let j = choose|j: int| 0 <= j < old_locals.len() && (#[trigger] old_locals[j]).0 == k;
        assert(is_mutable_object_var(old_locals[j].0));
    }
    true
}

/// The clauses that name no variable reached through an object or a class,
/// copied in order.
fn clauses_without_mutable_vars(clauses: &Vec<Clause>) -> (r: Vec<Clause>)
    ensures
        copies_of(r@, clauses@, clauses_without_mutable_object_vars(clause_entries(clauses@))),
{
    let mut kept: Vec<Clause> = Vec::new();
    let ghost all = clauses@;
    let nc = clauses.len();
    for i in 0..nc
        invariant
            nc == clauses@.len(),
            all == clauses@,
            copies_of(kept@, all, clauses_without_mutable_object_vars(clause_entries(all.take(i as int)))),
    {
        let ghost pre = all.take(i as int);
        let ghost post = all.take(i + 1);
        proof {
            assert(clause_entries(post).drop_last() =~= clause_entries(pre));
            assert(clause_entries(post)[i as int] == all[i as int].entries());
        }
        let c = &clauses[i];
        if !clause_mentions_mutable_object_var(c) {
            let ghost before = kept@;
            kept.push(c.clone());
            proof {
                let idx = clauses_without_mutable_object_vars(clause_entries(post));
                assert(idx == clauses_without_mutable_object_vars(clause_entries(pre)).push(i as int));
                assert forall|t: int| 0 <= t < kept@.len() implies 0 <= #[trigger] idx[t] < all.len()
                    && kept@[t].entries() == all[idx[t]].entries() && kept@[t].hash
                    == all[idx[t]].hash && kept@[t].wedge == all[idx[t]].wedge
                    && kept@[t].reconcilable == all[idx[t]].reconcilable
                    && kept@[t].generated == all[idx[t]].generated
                    && kept@[t].span == all[idx[t]].span
                    && kept@[t].condition_span == all[idx[t]].condition_span by {
                    if t < before.len() {
                        assert(kept@[t] == before[t]);
                    }
                }
            }
        }
    }
    assert(all.take(nc as int) =~= all);
    kept
}


} // verus!
