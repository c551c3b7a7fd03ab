//! What functions do with their parameters, wherever a function value turns up.

use crate::flow_graph::{arm_weight, arms_weight, exprs_weight, lemma_exprs_add, lemma_exprs_push};
use crate::function_facts::{FactsView, ProgramFacts, binding_in, function_id_of, param_types};
use crate::ids::IdSet;
use crate::model::{ArmBody, Binding, Expr, MatchArm, ResolvedConversion};
use crate::types::{
    AliasError, AliasResult, BindingId, ErrorView, FunctionId, ParamEffect, Span, Ty, TyView,
    broken_at, broken_invariant, error, fault_of, ty_views,
};
use crate::value_categories::{owns_dynamically, type_carries_dynamic_owner};
use std::collections::HashMap;
use vstd::prelude::*;

verus! {

/// The effects of functions or of variables that hold functions, by their numbers.
pub struct EffectTable {
    pub raw: HashMap<u32, Vec<ParamEffect>>,
}

impl View for EffectTable {
    type V = Map<u32, Seq<ParamEffect>>;

    open spec fn view(&self) -> Map<u32, Seq<ParamEffect>> {
        Map::new(|id: u32| self.raw@.contains_key(id), |id: u32| self.raw@[id]@)
    }
}

/// What a table says.
pub open spec fn effects_in(table: Map<u32, Seq<ParamEffect>>, id: u32) -> Option<
    Seq<ParamEffect>,
> {
    if table.contains_key(id) {
        Some(table[id])
    } else {
        None
    }
}

/// Copies a list of effects.
pub fn copy_list(list: &Vec<ParamEffect>) -> (r: Vec<ParamEffect>)
    ensures
        r@ == list@,
{
    let mut copied: Vec<ParamEffect> = Vec::new();
    let mut i: usize = 0;
    while i < list.len()
        invariant
            i <= list.len(),
            copied@ =~= list@.take(i as int),
        decreases list.len() - i,
    {
        copied.push(list[i]);
        i += 1;
    }
    copied
}

/// Whether two lists of effects are the same.
pub fn same_list(a: &Vec<ParamEffect>, b: &Vec<ParamEffect>) -> (r: bool)
    ensures
        r == (a@ == b@),
{
    if a.len() != b.len() {
        return false;
    }
    let mut i: usize = 0;
    while i < a.len()
        invariant
            i <= a.len(),
            a.len() == b.len(),
            forall|k: int| 0 <= k < i ==> a@[k] == b@[k],
        decreases a.len() - i,
    {
        if a[i] != b[i] {
            assert(a@[i as int] != b@[i as int]);
            return false;
        }
        i += 1;
    }
    assert(a@ =~= b@);
    true
}

impl EffectTable {
    pub fn new() -> (r: EffectTable)
        ensures
            r@ == Map::<u32, Seq<ParamEffect>>::empty(),
    {
        broadcast use vstd::std_specs::hash::group_hash_axioms;

        let r = EffectTable { raw: HashMap::new() };
        assert(r@ =~= Map::empty());
        r
    }

    pub fn get(&self, id: u32) -> (r: Option<&Vec<ParamEffect>>)
        ensures
            match r {
                Some(list) => effects_in(self@, id) == Some(list@),
                None => effects_in(self@, id) is None,
            },
    {
        broadcast use vstd::std_specs::hash::group_hash_axioms;

        self.raw.get(&id)
    }

    pub fn insert(&mut self, id: u32, list: Vec<ParamEffect>)
        ensures
            final(self)@ == old(self)@.insert(id, list@),
    {
        broadcast use vstd::std_specs::hash::group_hash_axioms;

        let _ = self.raw.insert(id, list);
        assert(self@ =~= old(self)@.insert(id, list@));
    }
}

/// The effect that a parameter has before anything is known of its uses. A scalar crosses by
/// value.
pub open spec fn initial_of(ty: TyView) -> ParamEffect {
    if owns_dynamically(ty) {
        ParamEffect::ReadBorrow
    } else {
        ParamEffect::Owned
    }
}

pub fn initial_effect(ty: &Ty) -> (r: ParamEffect)
    ensures
        r == initial_of(ty@),
{
    if type_carries_dynamic_owner(ty) {
        ParamEffect::ReadBorrow
    } else {
        ParamEffect::Owned
    }
}

/// How strong an effect is.
pub open spec fn rank(effect: ParamEffect) -> nat {
    match effect {
        ParamEffect::ReadBorrow => 0,
        ParamEffect::WriteBorrow => 1,
        ParamEffect::Owned => 2,
    }
}

/// The stronger of two effects.
pub open spec fn stronger(a: ParamEffect, b: ParamEffect) -> ParamEffect {
    if rank(a) >= rank(b) {
        a
    } else {
        b
    }
}

pub fn join_effect(current: ParamEffect, inferred: ParamEffect) -> (r: ParamEffect)
    ensures
        r == stronger(current, inferred),
{
    match (current, inferred) {
        (ParamEffect::Owned, _) => ParamEffect::Owned,
        (_, ParamEffect::Owned) => ParamEffect::Owned,
        (ParamEffect::WriteBorrow, _) => ParamEffect::WriteBorrow,
        (_, ParamEffect::WriteBorrow) => ParamEffect::WriteBorrow,
        (ParamEffect::ReadBorrow, ParamEffect::ReadBorrow) => ParamEffect::ReadBorrow,
    }
}

/// The order of the effects does not matter, and joining an effect with itself changes nothing.
pub proof fn law_join_is_a_semilattice(a: ParamEffect, b: ParamEffect, c: ParamEffect)
    ensures
        stronger(a, b) == stronger(b, a),
        stronger(a, a) == a,
        stronger(stronger(a, b), c) == stronger(a, stronger(b, c)),
{
}

/// Effects joined one by one.
pub open spec fn joined(a: Seq<ParamEffect>, b: Seq<ParamEffect>) -> Seq<ParamEffect> {
    Seq::new(a.len(), |i: int| stronger(a[i], b[i]))
}

/// The effects of two function values that may stand in the same position.
pub open spec fn merged(
    known: Option<Seq<ParamEffect>>,
    candidate: Seq<ParamEffect>,
    span: Span,
    strict: bool,
) -> Result<Seq<ParamEffect>, ErrorView> {
    match known {
        None => Ok(candidate),
        Some(existing) => if existing == candidate {
            Ok(existing)
        } else if strict {
            Err(ErrorView { msg: "函数值分支的 parameter effects 不一致"@, span })
        } else if existing.len() != candidate.len() {
            Err(broken_at(span, "函数值分支的 parameter effect arity 漂移"@))
        } else {
            Ok(joined(existing, candidate))
        },
    }
}

pub open spec fn list_view(list: Option<Vec<ParamEffect>>) -> Option<Seq<ParamEffect>> {
    match list {
        Some(list) => Some(list@),
        None => None,
    }
}

/// Adds the effects of one more function value.
pub fn merge_candidate(
    merged_so_far: &mut Option<Vec<ParamEffect>>,
    candidate: &Vec<ParamEffect>,
    span: Span,
    strict: bool,
) -> (r: AliasResult<()>)
    ensures
        match merged(list_view(*old(merged_so_far)), candidate@, span, strict) {
            Ok(list) => r is Ok && list_view(*final(merged_so_far)) == Some(list),
            Err(error) => fault_of(r) == Some(error),
        },
{
    match merged_so_far {
        None => {
            *merged_so_far = Some(copy_list(candidate));
            Ok(())
        },
        Some(existing) => {
            if same_list(existing, candidate) {
                return Ok(());
            }
            if strict {
                return Err(error(span, "函数值分支的 parameter effects 不一致"));
            }
            if existing.len() != candidate.len() {
                return Err(broken_invariant(span, "函数值分支的 parameter effect arity 漂移"));
            }
            let ghost before = existing@;
            let mut i: usize = 0;
            while i < existing.len()
                invariant
                    i <= existing.len(),
                    existing@.len() == before.len(),
                    candidate@.len() == before.len(),
                    forall|k: int|
                        0 <= k < i ==> existing@[k] == stronger(before[k], candidate@[k]),
                    forall|k: int| i <= k < before.len() ==> existing@[k] == before[k],
                decreases existing.len() - i,
            {
                let effect = join_effect(existing[i], candidate[i]);
                existing.set(i, effect);
                i += 1;
            }
            assert(existing@ =~= joined(before, candidate@));
            Ok(())
        },
    }
}

/// The variables that are bound at all.
pub open spec fn bound_ids<'a>(bindings: Seq<&'a Binding>) -> Set<BindingId> {
    Seq::new(bindings.len(), |i: int| bindings[i].binding_id).to_set()
}

proof fn lemma_bound<'a>(bindings: Seq<&'a Binding>, id: BindingId)
    requires
        binding_in(bindings, id) is Some,
    ensures
        bound_ids(bindings).contains(id),
    decreases bindings.len(),
{
    let all = Seq::new(bindings.len(), |i: int| bindings[i].binding_id);
    if bindings.last().binding_id == id {
        assert(all[bindings.len() - 1] == id);
    } else {
        lemma_bound(bindings.drop_last(), id);
        let rest = Seq::new(
            bindings.drop_last().len(),
            |i: int| bindings.drop_last()[i].binding_id,
        );
        let i = choose|i: int| 0 <= i < rest.len() && rest[i] == id;
        assert(all[i] == id);
    }
}

/// Following a variable for the first time leaves fewer variables to follow.
pub proof fn lemma_follow_shrinks<'a>(
    bindings: Seq<&'a Binding>,
    visited: Set<BindingId>,
    id: BindingId,
)
    requires
        binding_in(bindings, id) is Some,
        !visited.contains(id),
    ensures
        bound_ids(bindings).difference(visited.insert(id)).len() < bound_ids(bindings).difference(
            visited,
        ).len(),
{
    lemma_bound(bindings, id);
    vstd::seq_lib::seq_to_set_is_finite(
        Seq::new(bindings.len(), |i: int| bindings[i].binding_id),
    );
    let before = bound_ids(bindings).difference(visited);
    let after = bound_ids(bindings).difference(visited.insert(id));
    assert(after =~= before.remove(id));
    vstd::set_lib::lemma_len_subset(before, bound_ids(bindings));
}

/// Every arm of a match is a plain value.
pub open spec fn all_values(arms: Seq<MatchArm>) -> bool {
    forall|i: int| 0 <= i < arms.len() ==> (#[trigger] arms[i]).body is Value
}

/// The values of the arms, the last one first.
pub open spec fn arm_values<'a>(arms: Seq<MatchArm>) -> Seq<&'a Expr>
    decreases arms.len(),
{
    if arms.len() == 0 {
        Seq::empty()
    } else {
        let rest = arm_values(arms.drop_first());
        match arms[0].body {
            ArmBody::Value(value) => rest.push(&*value),
            _ => rest,
        }
    }
}

pub proof fn lemma_arm_values_weight(arms: Seq<MatchArm>)
    ensures
        exprs_weight(arm_values(arms)) <= arms_weight(arms),
    decreases arms.len(),
{
    if arms.len() > 0 {
        lemma_arm_values_weight(arms.drop_first());
        lemma_arms_first(arms);
        match arms[0].body {
            ArmBody::Value(value) => {
                lemma_exprs_push(arm_values(arms.drop_first()), &*value);
            },
            _ => {},
        }
    }
}

proof fn lemma_arms_first(arms: Seq<MatchArm>)
    requires
        arms.len() > 0,
    ensures
        arms_weight(arms) == arm_weight(arms[0]) + arms_weight(arms.drop_first()),
    decreases arms.len(),
{
    reveal_with_fuel(arms_weight, 2);
    if arms.len() == 1 {
        assert(arms.drop_last() =~= Seq::empty());
        assert(arms.drop_first() =~= Seq::empty());
    } else {
        lemma_arms_first(arms.drop_last());
        assert(arms.drop_first().drop_last() =~= arms.drop_last().drop_first());
        assert(arms.drop_first().last() == arms.last());
    }
}

/// What stays the same while the effects of a function value are worked out.
pub struct Lookup<'a> {
    pub facts: FactsView<'a>,
    pub current: Option<FunctionId>,
    pub binding_effects: Map<u32, Seq<ParamEffect>>,
    pub effects: Map<u32, Seq<ParamEffect>>,
    pub strict: bool,
}

/// The effects of everything that the expressions on a stack can evaluate to, or nothing where
/// they cannot be told.
pub open spec fn resolved<'a>(
    look: Lookup<'a>,
    stack: Seq<&'a Expr>,
    visited: Set<BindingId>,
    known: Option<Seq<ParamEffect>>,
) -> Result<Option<Seq<ParamEffect>>, ErrorView>
    decreases
            bound_ids(look.facts.bindings).difference(visited).len(),
            exprs_weight(stack),
{
    if stack.len() == 0 {
        Ok(known)
    } else {
        let expr = stack.last();
        let rest = stack.drop_last();
        match *expr {
            Expr::FuncLit { function_id, .. } => match effects_in(look.effects, function_id.0) {
                None => Err(
                    broken_at(expr.spec_span(), "FuncLit FunctionId 缺少 effect fact"@),
                ),
                Some(candidate) => match merged(known, candidate, expr.spec_span(), look.strict) {
                    Err(error) => Err(error),
                    Ok(list) => resolved(look, rest, visited, Some(list)),
                },
            },
            Expr::Ident(_, Some(id), span, _) => match effects_in(look.binding_effects, id.0) {
                Some(candidate) => match merged(known, candidate, span, look.strict) {
                    Err(error) => Err(error),
                    Ok(list) => resolved(look, rest, visited, Some(list)),
                },
                None => if visited.contains(id) {
                    Ok(None)
                } else {
                    match binding_in(look.facts.bindings, id) {
                        None => Ok(None),
                        Some(binding) => {
                            proof {
                                lemma_follow_shrinks(look.facts.bindings, visited, id);
                            }
                            resolved(look, rest.push(&binding.value), visited.insert(id), known)
                        },
                    }
                },
            },
            Expr::This(span, _) => match look.current {
                None => Err(broken_at(span, "this 缺少 enclosing FunctionId"@)),
                Some(function_id) => match effects_in(look.effects, function_id.0) {
                    None => Err(broken_at(span, "this FunctionId 缺少 effect fact"@)),
                    Some(candidate) => match merged(known, candidate, span, look.strict) {
                        Err(error) => Err(error),
                        Ok(list) => resolved(look, rest, visited, Some(list)),
                    },
                },
            },
            Expr::Convert { expr: inner, mode: ResolvedConversion::Identity, .. } => {
                proof {
                    lemma_exprs_push(rest, &*inner);
                }
                resolved(look, rest.push(&*inner), visited, known)
            },
            Expr::Ternary { then_expr, else_expr, .. } => {
                proof {
                    lemma_exprs_push(rest, &*else_expr);
                    lemma_exprs_push(rest.push(&*else_expr), &*then_expr);
                }
                resolved(look, rest.push(&*else_expr).push(&*then_expr), visited, known)
            },
            Expr::Match { arms, .. } => if all_values(arms@) {
                proof {
                    lemma_arm_values_weight(arms@);
                    lemma_exprs_add(rest, arm_values(arms@));
                }
                resolved(look, rest + arm_values(arms@), visited, known)
            } else {
                Ok(None)
            },
            _ => match expr.tyv() {
                TyView::Func { param_effects: Some(candidate), .. } => match merged(
                    known,
                    candidate,
                    expr.spec_span(),
                    look.strict,
                ) {
                    Err(error) => Err(error),
                    Ok(list) => resolved(look, rest, visited, Some(list)),
                },
                _ => Ok(None),
            },
        }
    }
}

/// The effects of the function values that an expression can evaluate to.
pub open spec fn effects_of<'a>(look: Lookup<'a>, expr: &'a Expr) -> Result<
    Option<Seq<ParamEffect>>,
    ErrorView,
> {
    resolved(look, seq![expr], Set::empty(), None)
}

fn push_arm_values<'a>(stack: &mut Vec<&'a Expr>, arms: &'a Vec<MatchArm>) -> (r: bool)
    ensures
        r == all_values(arms@),
        r ==> final(stack)@ == old(stack)@ + arm_values(arms@),
{
    let ghost before = stack@;
    let mut left: usize = arms.len();
    assert(arms@.skip(left as int) =~= Seq::empty());
    assert(before + arm_values::<'a>(arms@.skip(left as int)) =~= before);
    while left > 0
        invariant
            left <= arms.len(),
            before == old(stack)@,
            stack@ == before + arm_values(arms@.skip(left as int)),
            forall|i: int| left <= i < arms@.len() ==> (#[trigger] arms@[i]).body is Value,
        decreases left,
    {
        left -= 1;
        proof {
            assert(arms@.skip(left as int).drop_first() =~= arms@.skip(left + 1));
            assert(arms@.skip(left as int)[0] == arms@[left as int]);
        }
        match &arms[left].body {
            ArmBody::Value(value) => {
                stack.push(value);
                assert(stack@ =~= before + arm_values(arms@.skip(left as int)));
            },
            _ => {
                return false;
            },
        }
    }
    assert(arms@.skip(0) =~= arms@);
    true
}

/// Works out the effects of the function values that an expression can evaluate to.
pub fn resolve_expr_effects<'a>(
    expr: &'a Expr,
    current_function: Option<FunctionId>,
    facts: &ProgramFacts<'a>,
    binding_effects: &EffectTable,
    effects: &EffectTable,
    strict: bool,
) -> (r: AliasResult<Option<Vec<ParamEffect>>>)
    ensures
        match effects_of(
            Lookup {
                facts: facts@,
                current: current_function,
                binding_effects: binding_effects@,
                effects: effects@,
                strict,
            },
            expr,
        ) {
            Ok(list) => r matches Ok(found) && list_view(found) == list,
            Err(error) => fault_of(r) == Some(error),
        },
{
    let ghost look = Lookup {
        facts: facts@,
        current: current_function,
        binding_effects: binding_effects@,
        effects: effects@,
        strict,
    };
    let ghost goal = effects_of(look, expr);
    let mut stack: Vec<&'a Expr> = Vec::new();
    stack.push(expr);
    let mut visited = IdSet::new();
    let mut known: Option<Vec<ParamEffect>> = None;
    assert(stack@ =~= seq![expr]);
    loop
        invariant_except_break
            goal == resolved(look, stack@, visited@, list_view(known)),
        invariant
            look == (Lookup {
                facts: facts@,
                current: current_function,
                binding_effects: binding_effects@,
                effects: effects@,
                strict,
            }),
            goal == effects_of(look, expr),
        ensures
            goal == Ok::<Option<Seq<ParamEffect>>, ErrorView>(list_view(known)),
        decreases
                bound_ids(look.facts.bindings).difference(visited@).len(),
                exprs_weight(stack@),
    {
        let ghost before = stack@;
        let expr = match stack.pop() {
            None => {
                break;
            },
            Some(expr) => expr,
        };
        proof {
            assert(stack@ =~= before.drop_last());
            lemma_exprs_push(stack@, expr);
            assert(stack@.push(expr) =~= before);
        }
        match expr {
            Expr::FuncLit { function_id, .. } => match effects.get(function_id.0) {
                None => {
                    return Err(
                        broken_invariant(expr.span(), "FuncLit FunctionId 缺少 effect fact"),
                    );
                },
                Some(candidate) => match merge_candidate(
                    &mut known,
                    candidate,
                    expr.span(),
                    strict,
                ) {
                    Ok(_) => {},
                    Err(error) => {
                        return Err(error);
                    },
                },
            },
            Expr::Ident(_, Some(id), span, _) => match binding_effects.get(id.0) {
                Some(candidate) => match merge_candidate(&mut known, candidate, *span, strict) {
                    Ok(_) => {},
                    Err(error) => {
                        return Err(error);
                    },
                },
                None => {
                    let ghost seen = visited@;
                    if !visited.insert(*id) {
                        return Ok(None);
                    }
                    match facts.binding(*id) {
                        None => {
                            return Ok(None);
                        },
                        Some(binding) => {
                            proof {
                                lemma_follow_shrinks(facts@.bindings, seen, *id);
                            }
                            stack.push(&binding.value);
                        },
                    }
                },
            },
            Expr::This(span, _) => {
                let function_id = match current_function {
                    None => {
                        return Err(broken_invariant(*span, "this 缺少 enclosing FunctionId"));
                    },
                    Some(function_id) => function_id,
                };
                match effects.get(function_id.0) {
                    None => {
                        return Err(broken_invariant(*span, "this FunctionId 缺少 effect fact"));
                    },
                    Some(candidate) => match merge_candidate(
                        &mut known,
                        candidate,
                        *span,
                        strict,
                    ) {
                        Ok(_) => {},
                        Err(error) => {
                            return Err(error);
                        },
                    },
                }
            },
            Expr::Convert { expr: inner, mode: ResolvedConversion::Identity, .. } => {
                proof {
                    lemma_exprs_push(stack@, &**inner);
                }
                stack.push(inner);
            },
            Expr::Ternary { then_expr, else_expr, .. } => {
                proof {
                    lemma_exprs_push(stack@, &**else_expr);
                    lemma_exprs_push(stack@.push(&**else_expr), &**then_expr);
                }
                stack.push(else_expr);
                stack.push(then_expr);
            },
            Expr::Match { arms, .. } => {
                proof {
                    lemma_arm_values_weight(arms@);
                    lemma_exprs_add(stack@, arm_values(arms@));
                }
                if !push_arm_values(&mut stack, arms) {
                    return Ok(None);
                }
            },
            _ => match expr.ty() {
                Ty::Func { param_effects: Some(candidate), .. } => match merge_candidate(
                    &mut known,
                    candidate,
                    expr.span(),
                    strict,
                ) {
                    Ok(_) => {},
                    Err(error) => {
                        return Err(error);
                    },
                },
                _ => {
                    return Ok(None);
                },
            },
        }
    }
    Ok(known)
}

/// The effects that all functions have before anything is known of their bodies.
pub open spec fn starting_effects<'a>(functions: Seq<&'a Expr>) -> Map<u32, Seq<ParamEffect>>
    decreases functions.len(),
{
    if functions.len() == 0 {
        Map::empty()
    } else {
        let rest = starting_effects(functions.drop_last());
        match function_id_of(*functions.last()) {
            Some(id) => rest.insert(id.0, starting_list(*functions.last())),
            None => rest,
        }
    }
}

pub open spec fn starting_list(function: Expr) -> Seq<ParamEffect> {
    param_types(function).map_values(|ty: TyView| initial_of(ty))
}

/// Gives every function the effects it has before anything is known of its body.
pub fn initial_effects<'a>(facts: &ProgramFacts<'a>) -> (r: EffectTable)
    ensures
        r@ == starting_effects(facts@.functions),
{
    let mut table = EffectTable::new();
    let mut i: usize = 0;
    assert(facts.functions@.take(0) =~= Seq::empty());
    while i < facts.functions.len()
        invariant
            i <= facts.functions.len(),
            table@ == starting_effects(facts.functions@.take(i as int)),
        decreases facts.functions.len() - i,
    {
        let function = facts.functions[i];
        proof {
            assert(facts.functions@.take(i + 1).drop_last() =~= facts.functions@.take(i as int));
            assert(facts.functions@.take(i + 1).last() == function);
        }
        if let Expr::FuncLit { function_id, .. } = function {
            let mut list: Vec<ParamEffect> = Vec::new();
            if let Ty::Func { params, .. } = function.ty() {
                assert(param_types(*function) == ty_views(params@));
                let mut k: usize = 0;
                while k < params.len()
                    invariant
                        k <= params.len(),
                        list@.len() == k,
                        forall|j: int| 0 <= j < k ==> list@[j] == initial_of(params@[j]@),
                    decreases params.len() - k,
                {
                    list.push(initial_effect(&params[k]));
                    k += 1;
                }
            }
            assert(list@ =~= starting_list(*function));
            table.insert(function_id.0, list);
        }
        i += 1;
    }
    assert(facts.functions@.take(i as int) =~= facts.functions@);
    table
}

/// The effects of the variables that are bound to function literals.
pub open spec fn literal_effects<'a>(
    bindings: Seq<&'a Binding>,
    effects: Map<u32, Seq<ParamEffect>>,
) -> Map<u32, Seq<ParamEffect>>
    decreases bindings.len(),
{
    if bindings.len() == 0 {
        Map::empty()
    } else {
        let rest = literal_effects(bindings.drop_last(), effects);
        match function_id_of(bindings.last().value) {
            Some(id) => rest.insert(bindings.last().binding_id.0, effects[id.0]),
            None => rest,
        }
    }
}

/// The variable holds a function whose effects are not known.
pub open spec fn is_open(known: Map<u32, Seq<ParamEffect>>, binding: Binding) -> bool {
    binding.value.tyv() is Func && !known.contains_key(binding.binding_id.0)
}

pub open spec fn binding_lookup<'a>(
    facts: FactsView<'a>,
    effects: Map<u32, Seq<ParamEffect>>,
    strict: bool,
    known: Map<u32, Seq<ParamEffect>>,
) -> Lookup<'a> {
    Lookup { facts, current: None, binding_effects: known, effects, strict }
}

/// What is known after the first variables have been looked at once more.
pub open spec fn swept<'a>(
    facts: FactsView<'a>,
    effects: Map<u32, Seq<ParamEffect>>,
    strict: bool,
    known: Map<u32, Seq<ParamEffect>>,
    upto: nat,
) -> Result<Map<u32, Seq<ParamEffect>>, ErrorView>
    decreases upto,
{
    if upto == 0 {
        Ok(known)
    } else {
        match swept(facts, effects, strict, known, (upto - 1) as nat) {
            Err(error) => Err(error),
            Ok(so_far) => {
                let binding = facts.bindings[upto - 1];
                if !is_open(so_far, *binding) {
                    Ok(so_far)
                } else {
                    match effects_of(
                        binding_lookup(facts, effects, strict, so_far),
                        &binding.value,
                    ) {
                        Err(error) => Err(error),
                        Ok(None) => Ok(so_far),
                        Ok(Some(list)) => Ok(so_far.insert(binding.binding_id.0, list)),
                    }
                }
            },
        }
    }
}

pub open spec fn open_count<'a>(
    bindings: Seq<&'a Binding>,
    known: Map<u32, Seq<ParamEffect>>,
) -> nat
    decreases bindings.len(),
{
    if bindings.len() == 0 {
        0
    } else {
        open_count(bindings.drop_last(), known) + if is_open(known, *bindings.last()) {
            1nat
        } else {
            0nat
        }
    }
}

proof fn lemma_open_insert<'a>(
    bindings: Seq<&'a Binding>,
    known: Map<u32, Seq<ParamEffect>>,
    id: u32,
    list: Seq<ParamEffect>,
)
    ensures
        open_count(bindings, known.insert(id, list)) <= open_count(bindings, known),
        (exists|i: int|
            0 <= i < bindings.len() && is_open(known, *(#[trigger] bindings[i]))
                && bindings[i].binding_id.0 == id) ==> open_count(bindings, known.insert(id, list))
            < open_count(bindings, known),
    decreases bindings.len(),
{
    if bindings.len() > 0 {
        let rest = bindings.drop_last();
        lemma_open_insert(rest, known, id, list);
        if exists|i: int|
            0 <= i < bindings.len() && is_open(known, *(#[trigger] bindings[i]))
                && bindings[i].binding_id.0 == id {
            let i = choose|i: int|
                0 <= i < bindings.len() && is_open(known, *(#[trigger] bindings[i]))
                    && bindings[i].binding_id.0 == id;
            if i < rest.len() {
                assert(is_open(known, *rest[i]) && rest[i].binding_id.0 == id);
            }
        }
    }
}

/// Looking once more either finds nothing or leaves fewer variables open.
pub proof fn lemma_swept_shrinks<'a>(
    facts: FactsView<'a>,
    effects: Map<u32, Seq<ParamEffect>>,
    strict: bool,
    known: Map<u32, Seq<ParamEffect>>,
    upto: nat,
)
    requires
        upto <= facts.bindings.len(),
    ensures
        swept(facts, effects, strict, known, upto) matches Ok(after) ==> after == known
            || open_count(facts.bindings, after) < open_count(facts.bindings, known),
    decreases upto,
{
    if upto > 0 {
        lemma_swept_shrinks(facts, effects, strict, known, (upto - 1) as nat);
        match swept(facts, effects, strict, known, (upto - 1) as nat) {
            Err(_) => {},
            Ok(so_far) => {
                let binding = facts.bindings[upto - 1];
                if is_open(so_far, *binding) {
                    match effects_of(
                        binding_lookup(facts, effects, strict, so_far),
                        &binding.value,
                    ) {
                        Ok(Some(list)) => {
                            lemma_open_insert(
                                facts.bindings,
                                so_far,
                                binding.binding_id.0,
                                list,
                            );
                            assert(is_open(so_far, *facts.bindings[upto - 1])
                                && facts.bindings[upto - 1].binding_id.0 == binding.binding_id.0);
                        },
                        _ => {},
                    }
                }
            },
        }
    }
}

/// What is known when looking once more finds nothing.
pub open spec fn settled<'a>(
    facts: FactsView<'a>,
    effects: Map<u32, Seq<ParamEffect>>,
    strict: bool,
    known: Map<u32, Seq<ParamEffect>>,
) -> Result<Map<u32, Seq<ParamEffect>>, ErrorView>
    decreases open_count(facts.bindings, known),
{
    proof {
        lemma_swept_shrinks(facts, effects, strict, known, facts.bindings.len());
    }
    match swept(facts, effects, strict, known, facts.bindings.len()) {
        Err(error) => Err(error),
        Ok(after) => if after == known {
            Ok(known)
        } else {
            settled(facts, effects, strict, after)
        },
    }
}

/// The first variable that stays open is reported.
pub open spec fn open_fault<'a>(
    bindings: Seq<&'a Binding>,
    known: Map<u32, Seq<ParamEffect>>,
) -> Option<ErrorView>
    decreases bindings.len(),
{
    if bindings.len() == 0 {
        None
    } else {
        match open_fault(bindings.drop_last(), known) {
            Some(error) => Some(error),
            None => if is_open(known, *bindings.last()) {
                Some(
                    broken_at(
                        bindings.last().value.spec_span(),
                        "函数值 binding 的 parameter effects 无法唯一解析"@,
                    ),
                )
            } else {
                None
            },
        }
    }
}

/// The effects of all variables that hold functions.
pub open spec fn variable_effects<'a>(
    facts: FactsView<'a>,
    effects: Map<u32, Seq<ParamEffect>>,
    strict: bool,
) -> Result<Map<u32, Seq<ParamEffect>>, ErrorView> {
    match settled(facts, effects, strict, literal_effects(facts.bindings, effects)) {
        Err(error) => Err(error),
        Ok(known) => match open_fault(facts.bindings, known) {
            Some(error) => Err(error),
            None => Ok(known),
        },
    }
}

/// Every function that a variable is bound to has effects.
pub open spec fn covers<'a>(effects: Map<u32, Seq<ParamEffect>>, facts: FactsView<'a>) -> bool {
    forall|i: int|
        0 <= i < facts.bindings.len() ==> (function_id_of((#[trigger] facts.bindings[i]).value)
            matches Some(id) ==> effects.contains_key(id.0))
}

fn seed_literals<'a>(facts: &ProgramFacts<'a>, effects: &EffectTable) -> (r: EffectTable)
    requires
        covers(effects@, facts@),
    ensures
        r@ == literal_effects(facts@.bindings, effects@),
{
    let mut known = EffectTable::new();
    let mut i: usize = 0;
    assert(facts.bindings@.take(0) =~= Seq::empty());
    while i < facts.bindings.len()
        invariant
            i <= facts.bindings.len(),
            covers(effects@, facts@),
            known@ == literal_effects(facts.bindings@.take(i as int), effects@),
        decreases facts.bindings.len() - i,
    {
        let binding = facts.bindings[i];
        proof {
            assert(facts.bindings@.take(i + 1).drop_last() =~= facts.bindings@.take(i as int));
            assert(facts.bindings@.take(i + 1).last() == binding);
            assert(facts@.bindings[i as int] == binding);
        }
        if let Expr::FuncLit { function_id, .. } = &binding.value {
            if let Some(list) = effects.get(function_id.0) {
                known.insert(binding.binding_id.0, copy_list(list));
            }
        }
        i += 1;
    }
    assert(facts.bindings@.take(i as int) =~= facts.bindings@);
    known
}

fn sweep<'a>(
    facts: &ProgramFacts<'a>,
    effects: &EffectTable,
    strict: bool,
    known: &mut EffectTable,
) -> (r: AliasResult<bool>)
    ensures
        match swept(facts@, effects@, strict, old(known)@, facts@.bindings.len()) {
            Ok(after) => r == Ok::<bool, AliasError>(after != old(known)@) && final(known)@
                == after,
            Err(error) => fault_of(r) == Some(error),
        },
{
    let ghost start = known@;
    let mut changed = false;
    let mut i: usize = 0;
    while i < facts.bindings.len()
        invariant
            i <= facts.bindings.len(),
            start == old(known)@,
            swept(facts@, effects@, strict, start, i as nat) == Ok::<
                Map<u32, Seq<ParamEffect>>,
                ErrorView,
            >(known@),
            changed == (known@ != start),
            forall|id: u32| start.contains_key(id) ==> #[trigger] known@.contains_key(id),
        decreases facts.bindings.len() - i,
    {
        let binding = facts.bindings[i];
        let ghost so_far = known@;
        assert(facts@.bindings[i as int] == binding);
        let open = matches!(binding.value.ty(), Ty::Func { .. }) && known.get(
            binding.binding_id.0,
        ).is_none();
        assert(open == is_open(so_far, *binding));
        if open {
            match resolve_expr_effects(&binding.value, None, facts, known, effects, strict) {
                Err(error) => {
                    proof {
                        lemma_sweep_stops(
                            facts@,
                            effects@,
                            strict,
                            start,
                            (i + 1) as nat,
                            facts@.bindings.len(),
                        );
                    }
                    return Err(error);
                },
                Ok(None) => {},
                Ok(Some(list)) => {
                    known.insert(binding.binding_id.0, list);
                    changed = true;
                    assert(known@.contains_key(binding.binding_id.0));
                    assert(!start.contains_key(binding.binding_id.0));
                },
            }
        }
        i += 1;
    }
    Ok(changed)
}

proof fn lemma_sweep_stops<'a>(
    facts: FactsView<'a>,
    effects: Map<u32, Seq<ParamEffect>>,
    strict: bool,
    known: Map<u32, Seq<ParamEffect>>,
    n: nat,
    m: nat,
)
    requires
        n <= m,
        swept(facts, effects, strict, known, n) is Err,
    ensures
        swept(facts, effects, strict, known, m) == swept(facts, effects, strict, known, n),
    decreases m,
{
    if n < m {
        lemma_sweep_stops(facts, effects, strict, known, n, (m - 1) as nat);
    }
}

proof fn lemma_open_fault_stops<'a>(
    bindings: Seq<&'a Binding>,
    known: Map<u32, Seq<ParamEffect>>,
    upto: int,
)
    requires
        0 <= upto <= bindings.len(),
        open_fault(bindings.take(upto), known) is Some,
    ensures
        open_fault(bindings, known) == open_fault(bindings.take(upto), known),
    decreases bindings.len(),
{
    if upto == bindings.len() {
        assert(bindings.take(upto) =~= bindings);
    } else {
        assert(bindings.drop_last().take(upto) =~= bindings.take(upto));
        lemma_open_fault_stops(bindings.drop_last(), known, upto);
    }
}

/// Works out the effects of all variables that hold functions.
pub fn infer_binding_effects<'a>(
    facts: &ProgramFacts<'a>,
    effects: &EffectTable,
    strict: bool,
) -> (r: AliasResult<EffectTable>)
    requires
        covers(effects@, facts@),
    ensures
        match variable_effects(facts@, effects@, strict) {
            Ok(known) => r matches Ok(found) && found@ == known,
            Err(error) => fault_of(r) == Some(error),
        },
{
    let mut known = seed_literals(facts, effects);
    let ghost goal = settled(facts@, effects@, strict, known@);
    let mut again = true;
    while again
        invariant
            goal == settled(
                facts@,
                effects@,
                strict,
                literal_effects(facts@.bindings, effects@),
            ),
            goal == settled(facts@, effects@, strict, known@),
            !again ==> goal == Ok::<Map<u32, Seq<ParamEffect>>, ErrorView>(known@),
        decreases open_count(facts@.bindings, known@), again as nat,
    {
        proof {
            lemma_swept_shrinks(facts@, effects@, strict, known@, facts@.bindings.len());
        }
        match sweep(facts, effects, strict, &mut known) {
            Ok(changed) => {
                again = changed;
            },
            Err(error) => {
                return Err(error);
            },
        }
    }
    let mut i: usize = 0;
    assert(facts.bindings@.take(0) =~= Seq::empty());
    while i < facts.bindings.len()
        invariant
            i <= facts.bindings.len(),
            settled(facts@, effects@, strict, literal_effects(facts@.bindings, effects@)) == Ok::<
                Map<u32, Seq<ParamEffect>>,
                ErrorView,
            >(known@),
            open_fault(facts.bindings@.take(i as int), known@) is None,
        decreases facts.bindings.len() - i,
    {
        let binding = facts.bindings[i];
        proof {
            assert(facts.bindings@.take(i + 1).drop_last() =~= facts.bindings@.take(i as int));
            assert(facts.bindings@.take(i + 1).last() == binding);
        }
        if matches!(binding.value.ty(), Ty::Func { .. }) && known.get(
            binding.binding_id.0,
        ).is_none() {
            proof {
                lemma_open_fault_stops(facts.bindings@, known@, i + 1);
            }
            return Err(
                broken_invariant(
                    binding.value.span(),
                    "函数值 binding 的 parameter effects 无法唯一解析",
                ),
            );
        }
        i += 1;
    }
    assert(facts.bindings@.take(i as int) =~= facts.bindings@);
    Ok(known)
}

/// Where the effects of all variables are known, a variable bound to a function literal has the
/// effects of that function.
pub proof fn law_literal_effects_are_kept<'a>(
    facts: FactsView<'a>,
    effects: Map<u32, Seq<ParamEffect>>,
    strict: bool,
    known: Map<u32, Seq<ParamEffect>>,
    id: u32,
)
    requires
        known.contains_key(id),
        settled(facts, effects, strict, known) is Ok,
    ensures
        effects_in(settled(facts, effects, strict, known)->Ok_0, id) == Some(known[id]),
    decreases open_count(facts.bindings, known),
{
    lemma_swept_shrinks(facts, effects, strict, known, facts.bindings.len());
    lemma_swept_keeps(facts, effects, strict, known, facts.bindings.len(), id);
    match swept(facts, effects, strict, known, facts.bindings.len()) {
        Ok(after) => {
            if after != known {
                law_literal_effects_are_kept(facts, effects, strict, after, id);
            }
        },
        Err(_) => {},
    }
}

proof fn lemma_swept_keeps<'a>(
    facts: FactsView<'a>,
    effects: Map<u32, Seq<ParamEffect>>,
    strict: bool,
    known: Map<u32, Seq<ParamEffect>>,
    upto: nat,
    id: u32,
)
    requires
        known.contains_key(id),
    ensures
        swept(facts, effects, strict, known, upto) matches Ok(after) ==> effects_in(after, id)
            == Some(known[id]),
    decreases upto,
{
    if upto > 0 {
        lemma_swept_keeps(facts, effects, strict, known, (upto - 1) as nat, id);
    }
}

} // verus!
