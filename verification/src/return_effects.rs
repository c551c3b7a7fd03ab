//! What functions hand to their callers.

use crate::effects::{EffectTable, all_values, bound_ids, effects_in, lemma_follow_shrinks};
use crate::expr_places::{from_expr, lemma_place_root, place_of, tree_root};
use crate::flow_graph::{arm_weight, arms_weight, exprs_weight, lemma_exprs_add, lemma_exprs_push};
use crate::function_facts::{
    FactsView, ProgramFacts, binding_in, bound_function, captures_var, function_id_of, function_in,
    functions_ok, implicit_count, is_alias, is_global, meta_of, method_in, param_ids, param_types,
    parameter_ids,
};
use crate::ids::IdSet;
use crate::model::{
    ArgumentPass, ArmBody, Binding, CallArg, CallTarget, Expr, MatchArm, MethodTarget,
    OwnershipCapability, Place, PlaceInfo, ResolvedConversion, ReturnPass, Stmt, ValueCategory,
    place_root,
};
use crate::tree::{Label, Tree, place_tree, spanned};
use crate::types::{
    AliasError, AliasResult, BindingId, ErrorView, FunctionId, ParamEffect, ReturnBorrowSource,
    ReturnEffect, Span, Ty, TyView, broken_at, broken_invariant, error, fault_of, no_span, told,
    ty_views,
};
use crate::value_categories::{owns_dynamically, type_carries_dynamic_owner};
use crate::visit::{
    Node, Position, Visit, Walk, body_visits, kids, lemma_visit_kids, lemma_walk_all_add,
    lemma_walk_all_one, push_body, visit_kids, walk_all,
};
use std::collections::HashMap;
use vstd::prelude::*;

verus! {

/// What functions hand to their callers, by the numbers of the functions.
pub struct ReturnTable {
    pub raw: HashMap<u32, ReturnEffect>,
}

impl View for ReturnTable {
    type V = Map<u32, ReturnEffect>;

    open spec fn view(&self) -> Map<u32, ReturnEffect> {
        self.raw@
    }
}

pub open spec fn return_in(table: Map<u32, ReturnEffect>, id: u32) -> Option<ReturnEffect> {
    if table.contains_key(id) {
        Some(table[id])
    } else {
        None
    }
}

impl ReturnTable {
    pub fn new() -> (r: ReturnTable)
        ensures
            r@ == Map::<u32, ReturnEffect>::empty(),
    {
        broadcast use vstd::std_specs::hash::group_hash_axioms;

        ReturnTable { raw: HashMap::new() }
    }

    pub fn get(&self, id: u32) -> (r: Option<ReturnEffect>)
        ensures
            r == return_in(self@, id),
    {
        broadcast use vstd::std_specs::hash::group_hash_axioms;

        match self.raw.get(&id) {
            Some(effect) => Some(*effect),
            None => None,
        }
    }

    pub fn insert(&mut self, id: u32, effect: ReturnEffect)
        ensures
            final(self)@ == old(self)@.insert(id, effect),
    {
        broadcast use vstd::std_specs::hash::group_hash_axioms;

        let _ = self.raw.insert(id, effect);
    }
}

/// How a value leaves a function.
pub enum ReturnDraft {
    Inline,
    OwnedValue,
    OwnedTransfer(Place),
    BorrowPlace(Place, ReturnBorrowSource),
    BorrowValue(ReturnBorrowSource),
}

/// The mathematical value of a draft.
pub enum DraftView {
    Inline,
    OwnedValue,
    OwnedTransfer(Tree),
    BorrowPlace(Tree, ReturnBorrowSource),
    BorrowValue(ReturnBorrowSource),
}

impl View for ReturnDraft {
    type V = DraftView;

    open spec fn view(&self) -> DraftView {
        match *self {
            ReturnDraft::Inline => DraftView::Inline,
            ReturnDraft::OwnedValue => DraftView::OwnedValue,
            ReturnDraft::OwnedTransfer(place) => DraftView::OwnedTransfer(place_tree(place)),
            ReturnDraft::BorrowPlace(place, source) => DraftView::BorrowPlace(
                place_tree(place),
                source,
            ),
            ReturnDraft::BorrowValue(source) => DraftView::BorrowValue(source),
        }
    }
}

/// What a draft means for the caller.
pub open spec fn draft_effect(draft: DraftView) -> ReturnEffect {
    match draft {
        DraftView::Inline => ReturnEffect::Inline,
        DraftView::OwnedValue => ReturnEffect::Owned,
        DraftView::OwnedTransfer(_) => ReturnEffect::Owned,
        DraftView::BorrowPlace(_, source) => ReturnEffect::Borrowed(source),
        DraftView::BorrowValue(source) => ReturnEffect::Borrowed(source),
    }
}

/// What is recorded of a draft.
pub open spec fn draft_of(pass: ReturnPass) -> DraftView {
    match pass {
        ReturnPass::Inline => DraftView::Inline,
        ReturnPass::OwnedValue => DraftView::OwnedValue,
        ReturnPass::OwnedTransfer { source } => DraftView::OwnedTransfer(place_tree(source)),
        ReturnPass::BorrowPlace { source, origin } => DraftView::BorrowPlace(
            place_tree(source),
            origin,
        ),
        ReturnPass::BorrowValue { origin } => DraftView::BorrowValue(origin),
    }
}

impl ReturnDraft {
    pub fn effect(&self) -> (r: ReturnEffect)
        ensures
            r == draft_effect(self@),
    {
        match self {
            ReturnDraft::Inline => ReturnEffect::Inline,
            ReturnDraft::OwnedValue | ReturnDraft::OwnedTransfer(_) => ReturnEffect::Owned,
            ReturnDraft::BorrowPlace(_, source) => ReturnEffect::Borrowed(*source),
            ReturnDraft::BorrowValue(source) => ReturnEffect::Borrowed(*source),
        }
    }

    pub fn into_pass(self) -> (r: ReturnPass)
        ensures
            draft_of(r) == self@,
    {
        match self {
            ReturnDraft::Inline => ReturnPass::Inline,
            ReturnDraft::OwnedValue => ReturnPass::OwnedValue,
            ReturnDraft::OwnedTransfer(source) => ReturnPass::OwnedTransfer { source },
            ReturnDraft::BorrowPlace(source, origin) => ReturnPass::BorrowPlace { source, origin },
            ReturnDraft::BorrowValue(origin) => ReturnPass::BorrowValue { origin },
        }
    }
}

/// The explicit parameters of a function.
pub open spec fn explicit_ids(function: Expr) -> Seq<BindingId> {
    param_ids(function).skip(implicit_count(function) as int)
}

/// Where a variable of a function comes from, if its storage outlives the function.
pub open spec fn origin_of(
    root: BindingId,
    function: Expr,
    facts: FactsView<'_>,
) -> Option<ReturnBorrowSource> {
    if implicit_count(function) > 0 && param_ids(function)[0] == root {
        Some(ReturnBorrowSource::SelfValue)
    } else if explicit_ids(function).contains(root) {
        Some(
            ReturnBorrowSource::Parameter(
                explicit_ids(function).index_of_first(root)->0 as usize,
            ),
        )
    } else if is_global(facts.program.items@, root) {
        Some(ReturnBorrowSource::Global(root))
    } else {
        None
    }
}

fn find_from(ids: &Vec<BindingId>, from: usize, id: BindingId) -> (r: Option<usize>)
    requires
        from <= ids@.len(),
    ensures
        match r {
            Some(at) => {
                &&& ids@.skip(from as int).contains(id)
                &&& at == ids@.skip(from as int).index_of_first(id)->0
                &&& from + at < ids@.len()
                &&& ids@[from + at] == id
            },
            None => !ids@.skip(from as int).contains(id),
        },
{
    let ghost rest = ids@.skip(from as int);
    let mut i: usize = from;
    while i < ids.len()
        invariant
            from <= i <= ids.len(),
            rest == ids@.skip(from as int),
            forall|k: int| 0 <= k < i - from ==> rest[k] != id,
        decreases ids.len() - i,
    {
        if ids[i] == id {
            proof {
                assert(rest[i - from] == id);
                rest.index_of_first_ensures(id);
                let at = rest.index_of_first(id)->0;
                if at < i - from {
                    assert(rest[at] != id);
                }
                if i - from < at {
                    assert(rest[i - from] != id);
                }
            }
            return Some(i - from);
        }
        assert(rest[i - from] == ids@[i as int]);
        i += 1;
    }
    None
}

/// Where a variable of a function comes from, if its storage outlives the function.
pub fn place_origin<'a>(root: BindingId, function: &Expr, facts: &ProgramFacts<'a>) -> (r: Option<
    ReturnBorrowSource,
>)
    ensures
        r == origin_of(root, *function, facts@),
{
    let ids = parameter_ids(function);
    let implicit: usize = match function {
        Expr::FuncLit { implicit_bindings, .. } => implicit_bindings.len(),
        _ => 0,
    };
    assert(implicit <= ids@.len());
    if implicit > 0 && ids[0] == root {
        return Some(ReturnBorrowSource::SelfValue);
    }
    match find_from(&ids, implicit, root) {
        Some(index) => Some(ReturnBorrowSource::Parameter(index)),
        None => if facts.global(root) {
            Some(ReturnBorrowSource::Global(root))
        } else {
            None
        },
    }
}

/// What is wrong with handing out an alias of a parameter: a scalar crosses by value and leaves
/// nothing to alias.
pub open spec fn origin_fault(
    origin: ReturnBorrowSource,
    function: Expr,
    span: Span,
) -> Option<ErrorView> {
    let types = param_types(function);
    let inline = Some(
        ErrorView {
            msg: "InlineValue parameter/self 按值传递，不能作为 borrowed return source"@,
            span,
        },
    );
    match origin {
        ReturnBorrowSource::Parameter(index) => {
            let at = implicit_count(function) + index;
            if at >= types.len() {
                Some(broken_at(span, "borrowed return Parameter index 越界"@))
            } else if !owns_dynamically(types[at]) {
                inline
            } else {
                None
            }
        },
        ReturnBorrowSource::SelfValue => if types.len() == 0 {
            Some(broken_at(span, "borrowed return Self 缺少 receiver type"@))
        } else if !owns_dynamically(types[0]) {
            inline
        } else {
            None
        },
        ReturnBorrowSource::Global(_) => None,
    }
}

/// Checks that an alias of a parameter can be handed out.
pub fn validate_borrow_return_origin(origin: ReturnBorrowSource, function: &Expr, span: Span) -> (r:
    AliasResult<()>)
    ensures
        fault_of(r) == origin_fault(origin, *function, span),
{
    let implicit: usize = match function {
        Expr::FuncLit { implicit_bindings, .. } => implicit_bindings.len(),
        _ => 0,
    };
    let empty: Vec<Ty> = Vec::new();
    let types: &Vec<Ty> = match function.ty() {
        Ty::Func { params, .. } => params,
        _ => &empty,
    };
    assert(param_types(*function) =~= ty_views(types@));
    let source: &Ty = match origin {
        ReturnBorrowSource::Parameter(index) => {
            if index >= types.len() || implicit >= types.len() - index {
                return Err(broken_invariant(span, "borrowed return Parameter index 越界"));
            }
            &types[implicit + index]
        },
        ReturnBorrowSource::SelfValue => {
            if types.len() == 0 {
                return Err(broken_invariant(span, "borrowed return Self 缺少 receiver type"));
            }
            &types[0]
        },
        ReturnBorrowSource::Global(_) => {
            return Ok(());
        },
    };
    if !type_carries_dynamic_owner(source) {
        return Err(
            error(
                span,
                "InlineValue parameter/self 按值传递，不能作为 borrowed return source",
            ),
        );
    }
    Ok(())
}

/// The place behind an argument that was lent to a function.
pub open spec fn pass_source(pass: ArgumentPass, span: Span) -> Result<Tree, ErrorView> {
    match pass {
        ArgumentPass::ReadBorrow { source, .. } => Ok(place_tree(source)),
        ArgumentPass::WriteBorrow { source, .. } => Ok(place_tree(source)),
        ArgumentPass::BorrowTemporary { .. } => Err(
            ErrorView {
                msg: "borrowed return 不能依赖只活到调用结束的 temporary argument"@,
                span,
            },
        ),
        ArgumentPass::Owned => Err(
            ErrorView {
                msg: "borrowed return source 不能来自已经 transfer 给 callee 的 Owned argument"@,
                span,
            },
        ),
        ArgumentPass::Inline => Err(broken_at(span, "borrowed return source 指向 inline argument"@)),
    }
}

/// The place behind an argument that was lent to a function.
pub fn return_source_from_pass(pass: &ArgumentPass, span: Span) -> (r: AliasResult<Place>)
    ensures
        match pass_source(*pass, span) {
            Ok(tree) => r matches Ok(place) && place_tree(place) == tree,
            Err(error) => fault_of(r) == Some(error),
        },
{
    match pass {
        ArgumentPass::ReadBorrow { source, .. } => Ok(source.clone()),
        ArgumentPass::WriteBorrow { source, .. } => Ok(source.clone()),
        ArgumentPass::BorrowTemporary { .. } => Err(
            error(span, "borrowed return 不能依赖只活到调用结束的 temporary argument"),
        ),
        ArgumentPass::Owned => Err(
            error(
                span,
                "borrowed return source 不能来自已经 transfer 给 callee 的 Owned argument",
            ),
        ),
        ArgumentPass::Inline => Err(
            broken_invariant(span, "borrowed return source 指向 inline argument"),
        ),
    }
}

/// The place of a variable outside all functions.
pub open spec fn global_of(id: BindingId, facts: FactsView<'_>) -> Result<Tree, ErrorView> {
    match meta_of(facts, id) {
        Some(meta) => Ok(spanned(Label::LocalPlace(id, meta.ty), meta.span, Seq::empty())),
        None => Err(
            broken_at(no_span(), "borrowed global source 缺少 Binding metadata"@),
        ),
    }
}

/// The place of a variable outside all functions.
pub fn global_place<'a>(binding_id: BindingId, facts: &ProgramFacts<'a>) -> (r: AliasResult<Place>)
    requires
        functions_ok(facts@.functions),
    ensures
        match global_of(binding_id, facts@) {
            Ok(tree) => r matches Ok(place) && place_tree(place) == tree,
            Err(error) => fault_of(r) == Some(error),
        },
{
    match facts.meta(binding_id) {
        Some(meta) => Ok(
            Place::Local { binding_id, info: PlaceInfo { ty: meta.ty, span: meta.span } },
        ),
        None => Err(
            broken_invariant(
                Span { start: 0, end: 0 },
                "borrowed global source 缺少 Binding metadata",
            ),
        ),
    }
}

/// The place that the result of a call is an alias of, given where the callee took it from.
pub open spec fn call_source(
    source: ReturnBorrowSource,
    receiver_pass: Option<ArgumentPass>,
    args: Seq<CallArg>,
    facts: FactsView<'_>,
    span: Span,
) -> Result<Tree, ErrorView> {
    match source {
        ReturnBorrowSource::SelfValue => match receiver_pass {
            None => Err(broken_at(span, "Self borrowed return 出现在非方法调用"@)),
            Some(pass) => pass_source(pass, span),
        },
        ReturnBorrowSource::Parameter(index) => if index >= args.len() {
            Err(broken_at(span, "borrowed return Parameter index 超出 caller arity"@))
        } else {
            match args[index as int].pass {
                None => Err(broken_at(span, "borrowed return argument 缺少 pass fact"@)),
                Some(pass) => pass_source(pass, args[index as int].value.spec_span()),
            }
        },
        ReturnBorrowSource::Global(id) => global_of(id, facts),
    }
}

/// Finds the place that the result of a call is an alias of.
pub fn map_call_borrow_source<'a>(
    source: ReturnBorrowSource,
    receiver_pass: Option<&ArgumentPass>,
    args: &Vec<CallArg>,
    facts: &ProgramFacts<'a>,
    span: Span,
) -> (r: AliasResult<Place>)
    requires
        functions_ok(facts@.functions),
    ensures
        match call_source(
            source,
            match receiver_pass {
                Some(pass) => Some(*pass),
                None => None,
            },
            args@,
            facts@,
            span,
        ) {
            Ok(tree) => r matches Ok(place) && place_tree(place) == tree,
            Err(error) => fault_of(r) == Some(error),
        },
{
    match source {
        ReturnBorrowSource::SelfValue => match receiver_pass {
            None => Err(broken_invariant(span, "Self borrowed return 出现在非方法调用")),
            Some(pass) => return_source_from_pass(pass, span),
        },
        ReturnBorrowSource::Parameter(index) => {
            if index >= args.len() {
                return Err(
                    broken_invariant(span, "borrowed return Parameter index 超出 caller arity"),
                );
            }
            match &args[index].pass {
                None => Err(broken_invariant(span, "borrowed return argument 缺少 pass fact")),
                Some(pass) => return_source_from_pass(pass, args[index].value.span()),
            }
        },
        ReturnBorrowSource::Global(id) => global_place(id, facts),
    }
}

/// The values of the arms in order.
pub open spec fn arm_values<'a>(arms: Seq<MatchArm>) -> Seq<&'a Expr>
    decreases arms.len(),
{
    if arms.len() == 0 {
        Seq::empty()
    } else {
        let rest = arm_values(arms.drop_last());
        match arms.last().body {
            ArmBody::Value(value) => rest.push(&*value),
            _ => rest,
        }
    }
}

pub proof fn lemma_arm_values_weight(arms: Seq<MatchArm>)
    ensures
        exprs_weight(arm_values(arms)) <= arms_weight(arms),
    decreases arms.len(),
{
    if arms.len() > 0 {
        lemma_arm_values_weight(arms.drop_last());
        assert(arms_weight(arms) == arms_weight(arms.drop_last()) + arm_weight(arms.last()));
        match arms.last().body {
            ArmBody::Value(value) => {
                lemma_exprs_push(arm_values(arms.drop_last()), &*value);
            },
            _ => {},
        }
    }
}

/// A sorted list of functions with one more.
pub open spec fn with_id(list: Seq<FunctionId>, id: FunctionId) -> Seq<FunctionId>
    decreases list.len(),
{
    if list.len() == 0 {
        seq![id]
    } else if list.last() == id {
        list
    } else if list.last().0 < id.0 {
        list.push(id)
    } else {
        with_id(list.drop_last(), id).push(list.last())
    }
}

/// The list is sorted and holds no function twice.
pub open spec fn sorted(list: Seq<FunctionId>) -> bool {
    forall|i: int, j: int| 0 <= i < j < list.len() ==> list[i].0 < list[j].0
}

/// A sorted list stays sorted, and gains exactly the new function.
pub proof fn law_sorted_list_grows(list: Seq<FunctionId>, id: FunctionId)
    requires
        sorted(list),
    ensures
        sorted(with_id(list, id)),
        forall|x: FunctionId| #[trigger]
            with_id(list, id).contains(x) <==> list.contains(x) || x == id,
    decreases list.len(),
{
    let longer = with_id(list, id);
    if list.len() == 0 {
        assert(longer[0] == id);
    } else if list.last() == id {
        assert(list[list.len() - 1] == id);
    } else if list.last().0 < id.0 {
        assert forall|x: FunctionId| #[trigger] longer.contains(x) <==> list.contains(x) || x
            == id by {
            if list.contains(x) {
                let i = choose|i: int| 0 <= i < list.len() && list[i] == x;
                assert(longer[i] == x);
            }
            if longer.contains(x) && x != id {
                let i = choose|i: int| 0 <= i < longer.len() && longer[i] == x;
                assert(list[i] == x);
            }
            assert(longer[list.len() as int] == id);
        }
    } else {
        let rest = list.drop_last();
        law_sorted_list_grows(rest, id);
        let inner = with_id(rest, id);
        assert forall|i: int, j: int| 0 <= i < j < longer.len() implies longer[i].0
            < longer[j].0 by {
            if j == longer.len() - 1 {
                assert(inner.contains(inner[i]));
                if rest.contains(inner[i]) {
                    let k = choose|k: int| 0 <= k < rest.len() && rest[k] == inner[i];
                    assert(list[k] == inner[i]);
                }
            }
        }
        assert forall|x: FunctionId| #[trigger] longer.contains(x) <==> list.contains(x) || x
            == id by {
            if longer.contains(x) {
                let i = choose|i: int| 0 <= i < longer.len() && longer[i] == x;
                if i < inner.len() {
                    assert(inner.contains(x));
                    if rest.contains(x) {
                        let k = choose|k: int| 0 <= k < rest.len() && rest[k] == x;
                        assert(list[k] == x);
                    }
                } else {
                    assert(list[list.len() - 1] == x);
                }
            }
            if list.contains(x) || x == id {
                if x == list.last() {
                    assert(longer[longer.len() - 1] == x);
                } else {
                    if list.contains(x) {
                        let k = choose|k: int| 0 <= k < list.len() && list[k] == x;
                        assert(rest[k] == x);
                    }
                    assert(inner.contains(x));
                    let i = choose|i: int| 0 <= i < inner.len() && inner[i] == x;
                    assert(longer[i] == x);
                }
            }
        }
    }
}

/// The functions that the expressions on a stack can evaluate to.
pub open spec fn functions_from<'a>(
    facts: FactsView<'a>,
    current: Option<FunctionId>,
    stack: Seq<&'a Expr>,
    visited: Set<BindingId>,
    found: Seq<FunctionId>,
) -> Result<Seq<FunctionId>, ErrorView>
    decreases bound_ids(facts.bindings).difference(visited).len(), exprs_weight(stack),
{
    if stack.len() == 0 {
        Ok(found)
    } else {
        let expr = stack.last();
        let rest = stack.drop_last();
        match *expr {
            Expr::FuncLit { function_id, .. } => functions_from(
                facts,
                current,
                rest,
                visited,
                with_id(found, function_id),
            ),
            Expr::Ident(_, Some(id), _, _) => match bound_function(facts, id) {
                Some(function_id) => functions_from(
                    facts,
                    current,
                    rest,
                    visited,
                    with_id(found, function_id),
                ),
                None => if visited.contains(id) {
                    functions_from(facts, current, rest, visited, found)
                } else {
                    match binding_in(facts.bindings, id) {
                        None => {
                            proof {
                                lemma_follow_grows(facts.bindings, visited, id);
                            }
                            functions_from(facts, current, rest, visited.insert(id), found)
                        },
                        Some(binding) => {
                            proof {
                                lemma_follow_shrinks(facts.bindings, visited, id);
                            }
                            functions_from(
                                facts,
                                current,
                                rest.push(&binding.value),
                                visited.insert(id),
                                found,
                            )
                        },
                    }
                },
            },
            Expr::This(..) => match current {
                Some(function_id) => functions_from(
                    facts,
                    current,
                    rest,
                    visited,
                    with_id(found, function_id),
                ),
                None => Err(
                    broken_at(
                        expr.spec_span(),
                        "top-level function expression 不能解析 this"@,
                    ),
                ),
            },
            Expr::Convert { expr: inner, mode: ResolvedConversion::Identity, .. } => {
                proof {
                    lemma_exprs_push(rest, &*inner);
                }
                functions_from(facts, current, rest.push(&*inner), visited, found)
            },
            Expr::Ternary { then_expr, else_expr, .. } => {
                proof {
                    lemma_exprs_push(rest, &*else_expr);
                    lemma_exprs_push(rest.push(&*else_expr), &*then_expr);
                }
                functions_from(
                    facts,
                    current,
                    rest.push(&*else_expr).push(&*then_expr),
                    visited,
                    found,
                )
            },
            Expr::Match { arms, .. } => if all_values(arms@) {
                proof {
                    lemma_arm_values_weight(arms@);
                    lemma_exprs_add(rest, arm_values(arms@));
                }
                functions_from(facts, current, rest + arm_values(arms@), visited, found)
            } else {
                Err(
                    broken_at(
                        expr.spec_span(),
                        "函数值 match branch 无法解析 return effect"@,
                    ),
                )
            },
            _ => Err(
                broken_at(expr.spec_span(), "FunctionValue callee 无法恢复 FunctionId"@),
            ),
        }
    }
}

/// Marking a variable that is not bound leaves no more variables to follow.
pub proof fn lemma_follow_grows<'a>(
    bindings: Seq<&'a Binding>,
    visited: Set<BindingId>,
    id: BindingId,
)
    ensures
        bound_ids(bindings).difference(visited.insert(id)).len() <= bound_ids(bindings).difference(
            visited,
        ).len(),
{
    vstd::seq_lib::seq_to_set_is_finite(
        Seq::new(bindings.len(), |i: int| bindings[i].binding_id),
    );
    let before = bound_ids(bindings).difference(visited);
    vstd::set_lib::lemma_len_subset(before, bound_ids(bindings));
    vstd::set_lib::lemma_len_subset(bound_ids(bindings).difference(visited.insert(id)), before);
}

/// The functions that an expression can evaluate to, in order of their numbers.
pub open spec fn function_ids<'a>(
    expr: &'a Expr,
    current: Option<FunctionId>,
    facts: FactsView<'a>,
) -> Result<Seq<FunctionId>, ErrorView> {
    match functions_from(facts, current, seq![expr], Set::empty(), Seq::empty()) {
        Err(error) => Err(error),
        Ok(found) => if found.len() == 0 {
            Err(broken_at(expr.spec_span(), "函数值表达式没有可解析 FunctionId"@))
        } else {
            Ok(found)
        },
    }
}

fn insert_id(list: &mut Vec<FunctionId>, id: FunctionId)
    ensures
        final(list)@ == with_id(old(list)@, id),
{
    let ghost start = list@;
    let mut at: usize = list.len();
    assert(start.take(at as int) =~= start);
    assert(start.skip(at as int) =~= Seq::empty());
    assert(with_id(start, id) =~= with_id(start.take(at as int), id) + start.skip(at as int));
    while at > 0
        invariant
            at <= list.len(),
            start == old(list)@,
            list@ == start,
            with_id(start, id) == with_id(start.take(at as int), id) + start.skip(at as int),
        decreases at,
    {
        let last = list[at - 1];
        let ghost part = start.take(at as int);
        assert(part.last() == last);
        assert(part.drop_last() =~= start.take(at - 1));
        if last == id {
            assert(with_id(start, id) =~= start);
            return;
        }
        if last.0 < id.0 {
            list.insert(at, id);
            assert(list@ =~= with_id(start, id));
            return;
        }
        at -= 1;
        assert(with_id(start, id) =~= with_id(start.take(at as int), id) + start.skip(at as int));
    }
    list.insert(0, id);
    assert(start.take(0) =~= Seq::empty());
    assert(list@ =~= with_id(start, id));
}

fn push_arm_values<'a>(stack: &mut Vec<&'a Expr>, arms: &'a Vec<MatchArm>) -> (r: bool)
    ensures
        r == all_values(arms@),
        r ==> final(stack)@ == old(stack)@ + arm_values(arms@),
{
    let ghost before = stack@;
    let mut i: usize = 0;
    assert(arms@.take(0) =~= Seq::empty());
    assert(before + arm_values(arms@.take(0)) =~= before);
    while i < arms.len()
        invariant
            i <= arms.len(),
            before == old(stack)@,
            stack@ == before + arm_values(arms@.take(i as int)),
            forall|k: int| 0 <= k < i ==> (#[trigger] arms@[k]).body is Value,
        decreases arms.len() - i,
    {
        proof {
            assert(arms@.take(i + 1).drop_last() =~= arms@.take(i as int));
            assert(arms@.take(i + 1).last() == arms@[i as int]);
        }
        match &arms[i].body {
            ArmBody::Value(value) => {
                stack.push(value);
                assert(stack@ =~= before + arm_values(arms@.take(i + 1)));
            },
            _ => {
                return false;
            },
        }
        i += 1;
    }
    assert(arms@.take(i as int) =~= arms@);
    true
}

/// Finds the functions that an expression can evaluate to.
pub fn resolve_expr_function_ids<'a>(
    expr: &'a Expr,
    current_function: Option<FunctionId>,
    facts: &ProgramFacts<'a>,
) -> (r: AliasResult<Vec<FunctionId>>)
    ensures
        match function_ids(expr, current_function, facts@) {
            Ok(ids) => r matches Ok(found) && found@ == ids,
            Err(error) => fault_of(r) == Some(error),
        },
{
    let ghost goal = functions_from(
        facts@,
        current_function,
        seq![expr],
        Set::empty(),
        Seq::empty(),
    );
    let mut stack: Vec<&'a Expr> = Vec::new();
    stack.push(expr);
    assert(stack@ =~= seq![expr]);
    let mut visited = IdSet::new();
    let mut found: Vec<FunctionId> = Vec::new();
    loop
        invariant_except_break
            goal == functions_from(facts@, current_function, stack@, visited@, found@),
        invariant
            goal == functions_from(
                facts@,
                current_function,
                seq![expr],
                Set::empty(),
                Seq::empty(),
            ),
        ensures
            goal == Ok::<Seq<FunctionId>, ErrorView>(found@),
        decreases
                bound_ids(facts@.bindings).difference(visited@).len(),
                exprs_weight(stack@),
    {
        let ghost before = stack@;
        let expr = match stack.pop() {
            None => {
                break;
            },
            Some(expr) => expr,
        };
        proof {
            assert(stack@ =~= before.drop_last());
            lemma_exprs_push(stack@, expr);
            assert(stack@.push(expr) =~= before);
        }
        match expr {
            Expr::FuncLit { function_id, .. } => {
                insert_id(&mut found, *function_id);
            },
            Expr::Ident(_, Some(id), _, _) => match facts.bound(*id) {
                Some(function_id) => {
                    insert_id(&mut found, function_id);
                },
                None => {
                    let ghost seen = visited@;
                    if visited.insert(*id) {
                        match facts.binding(*id) {
                            Some(binding) => {
                                proof {
                                    lemma_follow_shrinks(facts@.bindings, seen, *id);
                                }
                                stack.push(&binding.value);
                            },
                            None => {
                                proof {
                                    lemma_follow_grows(facts@.bindings, seen, *id);
                                }
                            },
                        }
                    } else {
                        assert(visited@ =~= seen);
                    }
                },
            },
            Expr::This(..) => match current_function {
                Some(function_id) => {
                    insert_id(&mut found, function_id);
                },
                None => {
                    return Err(
                        broken_invariant(
                            expr.span(),
                            "top-level function expression 不能解析 this",
                        ),
                    );
                },
            },
            Expr::Convert { expr: inner, mode: ResolvedConversion::Identity, .. } => {
                proof {
                    lemma_exprs_push(stack@, &**inner);
                }
                stack.push(inner);
            },
            Expr::Ternary { then_expr, else_expr, .. } => {
                proof {
                    lemma_exprs_push(stack@, &**else_expr);
                    lemma_exprs_push(stack@.push(&**else_expr), &**then_expr);
                }
                stack.push(else_expr);
                stack.push(then_expr);
            },
            Expr::Match { arms, .. } => {
                proof {
                    lemma_arm_values_weight(arms@);
                    lemma_exprs_add(stack@, arm_values(arms@));
                }
                if !push_arm_values(&mut stack, arms) {
                    return Err(
                        broken_invariant(
                            expr.span(),
                            "函数值 match branch 无法解析 return effect",
                        ),
                    );
                }
            },
            _ => {
                return Err(
                    broken_invariant(expr.span(), "FunctionValue callee 无法恢复 FunctionId"),
                );
            },
        }
    }
    if found.len() == 0 {
        return Err(broken_invariant(expr.span(), "函数值表达式没有可解析 FunctionId"));
    }
    Ok(found)
}

/// The one effect that some functions share: nothing while one of them is not known, an error
/// where two of them differ.
pub open spec fn shared_effect(
    ids: Seq<FunctionId>,
    effects: Map<u32, ReturnEffect>,
    span: Span,
    known: Option<ReturnEffect>,
) -> Result<Option<ReturnEffect>, ErrorView>
    decreases ids.len(),
{
    if ids.len() == 0 {
        Ok(known)
    } else {
        match return_in(effects, ids[0].0) {
            None => Ok(None),
            Some(candidate) => match known {
                Some(existing) if existing != candidate => Err(
                    ErrorView {
                        msg: "函数值分支的 return effect / borrow source 不一致"@,
                        span,
                    },
                ),
                _ => shared_effect(ids.drop_first(), effects, span, Some(candidate)),
            },
        }
    }
}

/// What calling the functions that an expression can evaluate to hands back.
pub open spec fn callee_effect<'a>(
    callee: &'a Expr,
    current: Option<FunctionId>,
    facts: FactsView<'a>,
    effects: Map<u32, ReturnEffect>,
) -> Result<Option<ReturnEffect>, ErrorView> {
    match function_ids(callee, current, facts) {
        Err(error) => Err(error),
        Ok(ids) => shared_effect(ids, effects, callee.spec_span(), None),
    }
}

/// Finds what a call hands back.
pub fn resolved_callee_return_effect<'a>(
    callee: &'a Expr,
    current_function: Option<FunctionId>,
    facts: &ProgramFacts<'a>,
    effects: &ReturnTable,
) -> (r: AliasResult<Option<ReturnEffect>>)
    ensures
        match callee_effect(callee, current_function, facts@, effects@) {
            Ok(effect) => r == Ok::<Option<ReturnEffect>, AliasError>(effect),
            Err(error) => fault_of(r) == Some(error),
        },
{
    let ids = match resolve_expr_function_ids(callee, current_function, facts) {
        Ok(ids) => ids,
        Err(error) => {
            return Err(error);
        },
    };
    let span = callee.span();
    let ghost goal = shared_effect(ids@, effects@, span, None);
    let mut known: Option<ReturnEffect> = None;
    let mut i: usize = 0;
    assert(ids@.skip(0) =~= ids@);
    while i < ids.len()
        invariant
            i <= ids.len(),
            span == callee.spec_span(),
            function_ids(callee, current_function, facts@) == Ok::<Seq<FunctionId>, ErrorView>(
                ids@,
            ),
            goal == shared_effect(ids@, effects@, span, None),
            goal == shared_effect(ids@.skip(i as int), effects@, span, known),
        decreases ids.len() - i,
    {
        proof {
            assert(ids@.skip(i as int).drop_first() =~= ids@.skip(i + 1));
            assert(ids@.skip(i as int)[0] == ids@[i as int]);
        }
        match effects.get(ids[i].0) {
            None => {
                return Ok(None);
            },
            Some(candidate) => {
                if let Some(existing) = known {
                    if existing != candidate {
                        return Err(
                            error(span, "函数值分支的 return effect / borrow source 不一致"),
                        );
                    }
                }
                known = Some(candidate);
            },
        }
        i += 1;
    }
    assert(ids@.skip(i as int) =~= Seq::empty());
    Ok(known)
}

/// The alias comes from nowhere that outlives the function.
pub open spec fn no_origin(span: Span) -> ErrorView {
    told(span, "borrowed return 只能依赖当前函数 parameter、self 或 global source"@)
}

/// How the result of a call leaves a function that returns it.
pub open spec fn call_draft<'a>(
    effect: ReturnEffect,
    receiver_pass: Option<ArgumentPass>,
    args: Seq<CallArg>,
    function: Expr,
    facts: FactsView<'a>,
    span: Span,
) -> Result<Option<DraftView>, ErrorView> {
    match effect {
        ReturnEffect::Inline => Ok(Some(DraftView::Inline)),
        ReturnEffect::Owned => Ok(Some(DraftView::OwnedValue)),
        ReturnEffect::Borrowed(source) => match call_source(
            source,
            receiver_pass,
            args,
            facts,
            span,
        ) {
            Err(error) => Err(error),
            Ok(tree) => match origin_of(tree_root(tree), function, facts) {
                Some(origin) => Ok(Some(DraftView::BorrowValue(origin))),
                None => Err(no_origin(span)),
            },
        },
    }
}

/// The function owns the parameter.
pub open spec fn owns_param(
    effects: Map<u32, Seq<ParamEffect>>,
    function: Expr,
    root: BindingId,
) -> bool {
    let ids = param_ids(function);
    &&& ids.contains(root)
    &&& function_id_of(function) matches Some(id)
    &&& effects_in(effects, id.0) matches Some(list)
    &&& ids.index_of_first(root)->0 < list.len()
    &&& list[ids.index_of_first(root)->0] == ParamEffect::Owned
}

/// How a place leaves a function that returns what it holds.
pub open spec fn place_draft<'a>(
    place: Tree,
    function: Expr,
    param_effects: Map<u32, Seq<ParamEffect>>,
    facts: FactsView<'a>,
    span: Span,
) -> Result<Option<DraftView>, ErrorView> {
    let root = tree_root(place);
    if is_alias(facts, root) {
        Err(told(span, "borrowed alias return 的 generation forwarding 尚不能唯一固化"@))
    } else {
        match origin_of(root, function, facts) {
            Some(origin) => if owns_param(param_effects, function, root) {
                if place.label is LocalPlace {
                    Ok(Some(DraftView::OwnedTransfer(place)))
                } else {
                    Err(told(span, "owned return 不能隐式 partial-move parameter projection"@))
                }
            } else {
                Ok(Some(DraftView::BorrowPlace(place, origin)))
            },
            None => if captures_var(function, root) {
                Err(
                    told(
                        span,
                        "captured dynamic value 不能形成可返回的 ownership/borrow source；return effect 无法固化"@,
                    ),
                )
            } else if place.label is LocalPlace {
                Ok(Some(DraftView::OwnedTransfer(place)))
            } else {
                Err(told(span, "owned return 不能隐式 partial-move local projection"@))
            },
        }
    }
}

/// How any other value leaves a function.
pub open spec fn plain_draft<'a>(
    value: Expr,
    function: Expr,
    param_effects: Map<u32, Seq<ParamEffect>>,
    facts: FactsView<'a>,
) -> Result<Option<DraftView>, ErrorView> {
    if !owns_dynamically(value.tyv()) {
        Ok(Some(DraftView::Inline))
    } else if value.spec_value_category() == Some(ValueCategory::OwnedTemporary)
        && value.spec_info().ownership_capability == Some(OwnershipCapability::Available) {
        Ok(Some(DraftView::OwnedValue))
    } else {
        match place_of(value) {
            None => Err(
                told(
                    value.spec_span(),
                    "dynamic return value 缺少可证明的 ownership / borrow source"@,
                ),
            ),
            Some(place) => place_draft(
                place,
                function,
                param_effects,
                facts,
                value.spec_span(),
            ),
        }
    }
}

/// How a value leaves a function; nothing while the effect of a call in it is not known.
pub open spec fn classified<'a>(
    value: &'a Expr,
    function: Expr,
    param_effects: Map<u32, Seq<ParamEffect>>,
    return_effects: Map<u32, ReturnEffect>,
    facts: FactsView<'a>,
) -> Result<Option<DraftView>, ErrorView>
    decreases value,
{
    let span = value.spec_span();
    match *value {
        Expr::Move { .. } => Ok(
            Some(
                if owns_dynamically(value.tyv()) {
                    DraftView::OwnedValue
                } else {
                    DraftView::Inline
                },
            ),
        ),
        Expr::Borrow { source, .. } => match origin_of(place_root(*source), function, facts) {
            None => Err(no_origin(span)),
            Some(origin) => match origin_fault(origin, function, span) {
                Some(error) => Err(error),
                None => Ok(Some(DraftView::BorrowValue(origin))),
            },
        },
        Expr::Call { callee, args, target: CallTarget::FunctionValue, .. } => match callee_effect(
            &*callee,
            function_id_of(function),
            facts,
            return_effects,
        ) {
            Err(error) => Err(error),
            Ok(None) => Ok(None),
            Ok(Some(effect)) => call_draft(effect, None, args@, function, facts, span),
        },
        Expr::MethodCall {
            receiver_pass,
            args,
            target: MethodTarget::User { id, .. },
            ..
        } => match method_in(facts.bindings, id) {
            None => Err(broken_at(span, "user method return effect 缺少 FunctionId"@)),
            Some(callee) => match return_in(return_effects, callee.0) {
                None => Ok(None),
                Some(effect) => if effect is Borrowed && receiver_pass is None {
                    Err(broken_at(span, "user method receiver 缺少 pass fact"@))
                } else {
                    call_draft(effect, receiver_pass, args@, function, facts, span)
                },
            },
        },
        Expr::Convert { expr: inner, mode: ResolvedConversion::Identity, .. } => classified(
            &*inner,
            function,
            param_effects,
            return_effects,
            facts,
        ),
        _ => plain_draft(*value, function, param_effects, facts),
    }
}

fn draft_call<'a>(
    effect: ReturnEffect,
    receiver_pass: Option<&ArgumentPass>,
    args: &Vec<CallArg>,
    function: &Expr,
    facts: &ProgramFacts<'a>,
    span: Span,
) -> (r: AliasResult<Option<ReturnDraft>>)
    requires
        functions_ok(facts@.functions),
    ensures
        match call_draft(
            effect,
            match receiver_pass {
                Some(pass) => Some(*pass),
                None => None,
            },
            args@,
            *function,
            facts@,
            span,
        ) {
            Ok(draft) => r matches Ok(found) && draft_view(found) == draft,
            Err(error) => fault_of(r) == Some(error),
        },
{
    match effect {
        ReturnEffect::Inline => Ok(Some(ReturnDraft::Inline)),
        ReturnEffect::Owned => Ok(Some(ReturnDraft::OwnedValue)),
        ReturnEffect::Borrowed(source) => {
            let place = match map_call_borrow_source(source, receiver_pass, args, facts, span) {
                Ok(place) => place,
                Err(error) => {
                    return Err(error);
                },
            };
            proof {
                lemma_place_root(place);
            }
            match place_origin(place.root_binding_id(), function, facts) {
                Some(origin) => Ok(Some(ReturnDraft::BorrowValue(origin))),
                None => Err(
                    error(
                        span,
                        "borrowed return 只能依赖当前函数 parameter、self 或 global source",
                    ),
                ),
            }
        },
    }
}

pub open spec fn draft_view(draft: Option<ReturnDraft>) -> Option<DraftView> {
    match draft {
        Some(draft) => Some(draft@),
        None => None,
    }
}

fn captures_binding(function: &Expr, id: BindingId) -> (r: bool)
    ensures
        r == captures_var(*function, id),
{
    if let Expr::FuncLit { captures, .. } = function {
        let mut i: usize = 0;
        while i < captures.len()
            invariant
                i <= captures.len(),
                *function matches Expr::FuncLit { captures: list, .. } && list == *captures,
                forall|k: int| 0 <= k < i ==> (#[trigger] captures@[k]).binding_id != id,
            decreases captures.len() - i,
        {
            if captures[i].binding_id == id {
                assert(captures@[i as int].binding_id == id);
                return true;
            }
            i += 1;
        }
    }
    false
}

fn is_owned_param(effects: &EffectTable, function: &Expr, root: BindingId) -> (r: bool)
    ensures
        r == owns_param(effects@, *function, root),
{
    let ids = parameter_ids(function);
    let at = match find_from(&ids, 0, root) {
        Some(at) => at,
        None => {
            assert(ids@.skip(0) =~= ids@);
            return false;
        },
    };
    assert(ids@.skip(0) =~= ids@);
    match function {
        Expr::FuncLit { function_id, .. } => match effects.get(function_id.0) {
            Some(list) => at < list.len() && list[at] == ParamEffect::Owned,
            None => false,
        },
        _ => false,
    }
}

fn draft_place<'a>(
    place: Place,
    function: &Expr,
    param_effects: &EffectTable,
    facts: &ProgramFacts<'a>,
    span: Span,
) -> (r: AliasResult<Option<ReturnDraft>>)
    ensures
        match place_draft(place_tree(place), *function, param_effects@, facts@, span) {
            Ok(draft) => r matches Ok(found) && draft_view(found) == draft,
            Err(error) => fault_of(r) == Some(error),
        },
{
    proof {
        lemma_place_root(place);
    }
    let root = place.root_binding_id();
    let whole = matches!(place, Place::Local { .. });
    assert(whole == (place_tree(place).label is LocalPlace));
    if facts.alias(root) {
        return Err(
            error(span, "borrowed alias return 的 generation forwarding 尚不能唯一固化"),
        );
    }
    match place_origin(root, function, facts) {
        Some(origin) => {
            if is_owned_param(param_effects, function, root) {
                if whole {
                    Ok(Some(ReturnDraft::OwnedTransfer(place)))
                } else {
                    Err(error(span, "owned return 不能隐式 partial-move parameter projection"))
                }
            } else {
                Ok(Some(ReturnDraft::BorrowPlace(place, origin)))
            }
        },
        None => {
            if captures_binding(function, root) {
                return Err(
                    error(
                        span,
                        "captured dynamic value 不能形成可返回的 ownership/borrow source；return effect 无法固化",
                    ),
                );
            }
            if whole {
                Ok(Some(ReturnDraft::OwnedTransfer(place)))
            } else {
                Err(error(span, "owned return 不能隐式 partial-move local projection"))
            }
        },
    }
}

fn draft_plain<'a>(
    value: &Expr,
    function: &Expr,
    param_effects: &EffectTable,
    facts: &ProgramFacts<'a>,
) -> (r: AliasResult<Option<ReturnDraft>>)
    ensures
        match plain_draft(*value, *function, param_effects@, facts@) {
            Ok(draft) => r matches Ok(found) && draft_view(found) == draft,
            Err(error) => fault_of(r) == Some(error),
        },
{
    if !type_carries_dynamic_owner(value.ty()) {
        return Ok(Some(ReturnDraft::Inline));
    }
    match (value.value_category(), value.ownership_capability()) {
        (Some(ValueCategory::OwnedTemporary), Some(OwnershipCapability::Available)) => {
            return Ok(Some(ReturnDraft::OwnedValue));
        },
        _ => {},
    }
    match from_expr(value) {
        None => Err(
            error(
                value.span(),
                "dynamic return value 缺少可证明的 ownership / borrow source",
            ),
        ),
        Some(place) => draft_place(place, function, param_effects, facts, value.span()),
    }
}

/// Finds how a value leaves a function.
pub fn classify_return_expr<'a>(
    value: &'a Expr,
    function: &Expr,
    parameter_effects: &EffectTable,
    return_effects: &ReturnTable,
    facts: &ProgramFacts<'a>,
) -> (r: AliasResult<Option<ReturnDraft>>)
    requires
        functions_ok(facts@.functions),
    ensures
        match classified(value, *function, parameter_effects@, return_effects@, facts@) {
            Ok(draft) => r matches Ok(found) && draft_view(found) == draft,
            Err(error) => fault_of(r) == Some(error),
        },
    decreases value,
{
    let span = value.span();
    match value {
        Expr::Move { .. } => Ok(
            Some(
                if type_carries_dynamic_owner(value.ty()) {
                    ReturnDraft::OwnedValue
                } else {
                    ReturnDraft::Inline
                },
            ),
        ),
        Expr::Borrow { source, .. } => match place_origin(
            source.root_binding_id(),
            function,
            facts,
        ) {
            None => Err(
                error(
                    span,
                    "borrowed return 只能依赖当前函数 parameter、self 或 global source",
                ),
            ),
            Some(origin) => match validate_borrow_return_origin(origin, function, span) {
                Ok(_) => Ok(Some(ReturnDraft::BorrowValue(origin))),
                Err(error) => Err(error),
            },
        },
        Expr::Call { callee, args, target: CallTarget::FunctionValue, .. } => {
            let current = match function {
                Expr::FuncLit { function_id, .. } => Some(*function_id),
                _ => None,
            };
            match resolved_callee_return_effect(callee, current, facts, return_effects) {
                Err(error) => Err(error),
                Ok(None) => Ok(None),
                Ok(Some(effect)) => draft_call(effect, None, args, function, facts, span),
            }
        },
        Expr::MethodCall {
            receiver_pass,
            args,
            target: MethodTarget::User { id, .. },
            ..
        } => {
            let callee = match facts.method(*id) {
                Some(callee) => callee,
                None => {
                    return Err(
                        broken_invariant(span, "user method return effect 缺少 FunctionId"),
                    );
                },
            };
            match return_effects.get(callee.0) {
                None => Ok(None),
                Some(effect) => {
                    let pass: Option<&ArgumentPass> = match receiver_pass {
                        Some(pass) => Some(pass),
                        None => None,
                    };
                    if let ReturnEffect::Borrowed(_) = effect {
                        if pass.is_none() {
                            return Err(
                                broken_invariant(span, "user method receiver 缺少 pass fact"),
                            );
                        }
                    }
                    draft_call(effect, pass, args, function, facts, span)
                },
            }
        },
        Expr::Convert { expr: inner, mode: ResolvedConversion::Identity, .. } =>
            classify_return_expr(inner, function, parameter_effects, return_effects, facts),
        _ => draft_plain(value, function, parameter_effects, facts),
    }
}

/// Returned values are looked at as wholes, and functions inside a function return on their own.
pub open spec fn return_walk() -> Walk {
    Walk { every_callee: true, into_functions: false, value_first: true, subject_last: true }
}

/// The values that the arms of a match return, the last one first.
pub open spec fn ret_values<'a>(arms: Seq<MatchArm>) -> Seq<&'a Expr>
    decreases arms.len(),
{
    if arms.len() == 0 {
        Seq::empty()
    } else {
        let rest = ret_values(arms.drop_last());
        match arms.last().body {
            ArmBody::Ret(value) => seq![&*value] + rest,
            _ => rest,
        }
    }
}

/// The values that a node returns.
pub open spec fn returned_at<'a>(visit: Visit<'a>) -> Seq<&'a Expr> {
    match visit.node {
        Node::Stmt(stmt) => match *stmt {
            Stmt::Return { value: Some(value) } => seq![&value],
            _ => Seq::empty(),
        },
        Node::Expr(expr, position) => if position is Returned {
            Seq::empty()
        } else {
            match *expr {
                Expr::Match { arms, .. } => ret_values(arms@),
                _ => Seq::empty(),
            }
        },
        _ => Seq::empty(),
    }
}

/// Nothing below the node is looked at.
pub open spec fn ends_at<'a>(visit: Visit<'a>) -> bool {
    match visit.node {
        Node::Stmt(stmt) => *stmt matches Stmt::Return { value: Some(_) },
        Node::Expr(expr, position) => position is Returned || *expr is FuncLit,
        _ => false,
    }
}

pub open spec fn below<'a>(visit: Visit<'a>) -> Seq<Visit<'a>> {
    if ends_at(visit) {
        Seq::empty()
    } else {
        visit_kids(return_walk(), visit)
    }
}

/// Looking below a node leaves fewer nodes to look at.
pub proof fn lemma_below_shrinks<'a>(list: Seq<Visit<'a>>)
    requires
        list.len() > 0,
    ensures
        walk_all(return_walk(), below(list[0]) + list.drop_first()).len() < walk_all(
            return_walk(),
            list,
        ).len(),
{
    let w = return_walk();
    let visit = list[0];
    let rest = list.drop_first();
    assert(list =~= seq![visit] + rest);
    lemma_walk_all_add(w, seq![visit], rest);
    lemma_walk_all_one(w, visit);
    lemma_visit_kids(w, visit);
    lemma_walk_all_add(w, visit_kids(w, visit), rest);
    if ends_at(visit) {
        assert(below(visit) + rest =~= rest);
    }
}

/// The values that some nodes return, in the order in which they are found.
pub open spec fn returned_from<'a>(list: Seq<Visit<'a>>) -> Seq<&'a Expr>
    decreases walk_all(return_walk(), list).len(),
{
    if list.len() == 0 {
        Seq::empty()
    } else {
        proof {
            lemma_below_shrinks(list);
        }
        returned_at(list[0]) + returned_from(below(list[0]) + list.drop_first())
    }
}

/// The values that a function returns.
pub open spec fn return_values<'a>(function: &'a Expr) -> Result<Seq<&'a Expr>, ErrorView> {
    match *function {
        Expr::FuncLit { body, .. } => Ok(returned_from(body_visits(None, &*body))),
        _ => Err(broken_at(function.spec_span(), "return effect 入口不是 FuncLit"@)),
    }
}

fn push_ret_values<'a>(values: &mut Vec<&'a Expr>, arms: &'a Vec<MatchArm>)
    ensures
        final(values)@ == old(values)@ + ret_values(arms@),
{
    let ghost start = values@;
    let mut left: usize = arms.len();
    assert(arms@.take(left as int) =~= arms@);
    while left > 0
        invariant
            left <= arms.len(),
            start == old(values)@,
            start + ret_values(arms@) == values@ + ret_values(arms@.take(left as int)),
        decreases left,
    {
        proof {
            assert(arms@.take(left as int).drop_last() =~= arms@.take(left - 1));
            assert(arms@.take(left as int).last() == arms@[left - 1]);
        }
        let ghost before = values@;
        left -= 1;
        if let ArmBody::Ret(value) = &arms[left].body {
            values.push(value);
            assert(values@ + ret_values(arms@.take(left as int)) =~= before + (seq![&**value]
                + ret_values(arms@.take(left as int))));
        }
    }
    assert(values@ + ret_values(arms@.take(0)) =~= values@);
}

fn note_returned<'a>(values: &mut Vec<&'a Expr>, visit: Visit<'a>) -> (r: bool)
    ensures
        final(values)@ == old(values)@ + returned_at(visit),
        r == ends_at(visit),
{
    let ghost start = values@;
    match visit.node {
        Node::Stmt(stmt) => {
            if let Stmt::Return { value: Some(value) } = stmt {
                values.push(value);
                assert(values@ =~= start + seq![value]);
                return true;
            }
        },
        Node::Expr(expr, position) => {
            if let Position::Returned(_) = position {
                assert(values@ =~= start + Seq::empty());
                return true;
            }
            match expr {
                Expr::FuncLit { .. } => {
                    assert(values@ =~= start + Seq::empty());
                    return true;
                },
                Expr::Match { arms, .. } => {
                    push_ret_values(values, arms);
                    return false;
                },
                _ => {},
            }
        },
        _ => {},
    }
    assert(values@ =~= start + Seq::empty());
    false
}

/// Collects the values that a function returns.
pub fn function_return_values<'a>(function: &'a Expr) -> (r: AliasResult<Vec<&'a Expr>>)
    ensures
        match return_values(function) {
            Ok(values) => r matches Ok(found) && found@ == values,
            Err(error) => fault_of(r) == Some(error),
        },
{
    let body = match function {
        Expr::FuncLit { body, .. } => body,
        _ => {
            return Err(broken_invariant(function.span(), "return effect 入口不是 FuncLit"));
        },
    };
    let ghost goal = returned_from(body_visits(None, &**body));
    let mut roots: Vec<Visit<'a>> = Vec::new();
    push_body(&mut roots, None, body);
    assert(roots@ =~= body_visits(None, &**body));
    let mut stack: Vec<Visit<'a>> = Vec::new();
    push_reversed(&mut stack, &roots);
    assert(stack@.reverse() =~= roots@);
    let mut values: Vec<&'a Expr> = Vec::new();
    assert(values@ + returned_from(stack@.reverse()) =~= goal);
    loop
        invariant_except_break
            values@ + returned_from(stack@.reverse()) == goal,
        ensures
            values@ == goal,
        decreases walk_all(return_walk(), stack@.reverse()).len(),
    {
        let ghost before = stack@;
        let visit = match stack.pop() {
            None => {
                assert(stack@.reverse() =~= Seq::empty());
                assert(values@ =~= goal);
                break;
            },
            Some(visit) => visit,
        };
        let ghost rest = stack@;
        let ghost seen = values@;
        proof {
            assert(before.reverse() =~= seq![visit] + rest.reverse());
            assert(before.reverse().drop_first() =~= rest.reverse());
            lemma_below_shrinks(before.reverse());
        }
        if !note_returned(&mut values, visit) {
            let list = kids(
                Walk {
                    every_callee: true,
                    into_functions: false,
                    value_first: true,
                    subject_last: true,
                },
                visit,
            );
            push_reversed(&mut stack, &list);
        }
        proof {
            assert(stack@.reverse() =~= below(visit) + rest.reverse());
            assert(values@ + returned_from(stack@.reverse()) =~= seen + (returned_at(visit)
                + returned_from(below(visit) + rest.reverse())));
        }
    }
    Ok(values)
}

fn push_reversed<'a>(stack: &mut Vec<Visit<'a>>, list: &Vec<Visit<'a>>)
    ensures
        final(stack)@.reverse() == list@ + old(stack)@.reverse(),
{
    let ghost rest = stack@;
    let mut left: usize = list.len();
    assert(stack@.reverse() =~= list@.skip(left as int) + rest.reverse());
    while left > 0
        invariant
            left <= list.len(),
            rest == old(stack)@,
            stack@.reverse() == list@.skip(left as int) + rest.reverse(),
        decreases left,
    {
        left -= 1;
        stack.push(list[left]);
        assert(stack@.reverse() =~= seq![list@[left as int]] + (list@.skip(left + 1)
            + rest.reverse()));
        assert(stack@.reverse() =~= list@.skip(left as int) + rest.reverse());
    }
    assert(list@.skip(0) =~= list@);
}

/// What a function that returns some values hands to its caller, as far as it is known.
pub open spec fn own_effect<'a>(
    values: Seq<&'a Expr>,
    function: Expr,
    param_effects: Map<u32, Seq<ParamEffect>>,
    return_effects: Map<u32, ReturnEffect>,
    facts: FactsView<'a>,
    known: Option<ReturnEffect>,
) -> Result<Option<ReturnEffect>, ErrorView>
    decreases values.len(),
{
    if values.len() == 0 {
        Ok(known)
    } else {
        match classified(values[0], function, param_effects, return_effects, facts) {
            Err(error) => Err(error),
            Ok(None) => own_effect(
                values.drop_first(),
                function,
                param_effects,
                return_effects,
                facts,
                known,
            ),
            Ok(Some(draft)) => match known {
                Some(existing) if existing != draft_effect(draft) => Err(
                    told(
                        values[0].spec_span(),
                        "同一函数的 return effect 或 borrowed source 不一致"@,
                    ),
                ),
                _ => own_effect(
                    values.drop_first(),
                    function,
                    param_effects,
                    return_effects,
                    facts,
                    Some(draft_effect(draft)),
                ),
            },
        }
    }
}

fn infer_own_effect<'a>(
    values: &Vec<&'a Expr>,
    function: &Expr,
    parameter_effects: &EffectTable,
    return_effects: &ReturnTable,
    facts: &ProgramFacts<'a>,
) -> (r: AliasResult<Option<ReturnEffect>>)
    requires
        functions_ok(facts@.functions),
    ensures
        match own_effect(
            values@,
            *function,
            parameter_effects@,
            return_effects@,
            facts@,
            None,
        ) {
            Ok(effect) => r == Ok::<Option<ReturnEffect>, AliasError>(effect),
            Err(error) => fault_of(r) == Some(error),
        },
{
    let ghost goal = own_effect(
        values@,
        *function,
        parameter_effects@,
        return_effects@,
        facts@,
        None,
    );
    let mut known: Option<ReturnEffect> = None;
    let mut i: usize = 0;
    assert(values@.skip(0) =~= values@);
    while i < values.len()
        invariant
            i <= values.len(),
            functions_ok(facts@.functions),
            goal == own_effect(
                values@,
                *function,
                parameter_effects@,
                return_effects@,
                facts@,
                None,
            ),
            goal == own_effect(
                values@.skip(i as int),
                *function,
                parameter_effects@,
                return_effects@,
                facts@,
                known,
            ),
        decreases values.len() - i,
    {
        proof {
            assert(values@.skip(i as int).drop_first() =~= values@.skip(i + 1));
            assert(values@.skip(i as int)[0] == values@[i as int]);
        }
        match classify_return_expr(values[i], function, parameter_effects, return_effects, facts) {
            Err(error) => {
                return Err(error);
            },
            Ok(None) => {},
            Ok(Some(draft)) => {
                let candidate = draft.effect();
                if let Some(existing) = known {
                    if existing != candidate {
                        return Err(
                            error(
                                values[i].span(),
                                "同一函数的 return effect 或 borrowed source 不一致",
                            ),
                        );
                    }
                }
                known = Some(candidate);
            },
        }
        i += 1;
    }
    assert(values@.skip(i as int) =~= Seq::empty());
    Ok(known)
}

/// What is known after one more look at a function.
pub open spec fn looked_again<'a>(
    function: &'a Expr,
    param_effects: Map<u32, Seq<ParamEffect>>,
    known: Map<u32, ReturnEffect>,
    facts: FactsView<'a>,
) -> Result<Map<u32, ReturnEffect>, ErrorView> {
    match return_values(function) {
        Err(error) => Err(error),
        Ok(values) => match own_effect(values, *function, param_effects, known, facts, None) {
            Err(error) => Err(error),
            Ok(None) => Ok(known),
            Ok(Some(effect)) => match function_id_of(*function) {
                None => Ok(known),
                Some(id) => match return_in(known, id.0) {
                    Some(existing) => if existing == effect {
                        Ok(known)
                    } else {
                        Err(
                            told(
                                function.spec_span(),
                                "递归 return effect 收敛到不一致结果"@,
                            ),
                        )
                    },
                    None => Ok(known.insert(id.0, effect)),
                },
            },
        },
    }
}

/// What is known after one more look at the first functions.
pub open spec fn round<'a>(
    facts: FactsView<'a>,
    param_effects: Map<u32, Seq<ParamEffect>>,
    known: Map<u32, ReturnEffect>,
    upto: nat,
) -> Result<Map<u32, ReturnEffect>, ErrorView>
    decreases upto,
{
    if upto == 0 {
        Ok(known)
    } else {
        match round(facts, param_effects, known, (upto - 1) as nat) {
            Err(error) => Err(error),
            Ok(so_far) => looked_again(facts.functions[upto - 1], param_effects, so_far, facts),
        }
    }
}

/// The effect of the function is not known.
pub open spec fn is_unknown(known: Map<u32, ReturnEffect>, function: Expr) -> bool {
    function_id_of(function) matches Some(id) && !known.contains_key(id.0)
}

pub open spec fn unknown_count<'a>(functions: Seq<&'a Expr>, known: Map<u32, ReturnEffect>) -> nat
    decreases functions.len(),
{
    if functions.len() == 0 {
        0
    } else {
        unknown_count(functions.drop_last(), known) + if is_unknown(known, *functions.last()) {
            1nat
        } else {
            0nat
        }
    }
}

proof fn lemma_unknown_insert<'a>(
    functions: Seq<&'a Expr>,
    known: Map<u32, ReturnEffect>,
    id: FunctionId,
    effect: ReturnEffect,
)
    requires
        !known.contains_key(id.0),
    ensures
        unknown_count(functions, known.insert(id.0, effect)) <= unknown_count(functions, known),
        (exists|i: int|
            0 <= i < functions.len() && function_id_of(*(#[trigger] functions[i])) == Some(id))
            ==> unknown_count(functions, known.insert(id.0, effect)) < unknown_count(
            functions,
            known,
        ),
    decreases functions.len(),
{
    if functions.len() > 0 {
        let rest = functions.drop_last();
        lemma_unknown_insert(rest, known, id, effect);
        if exists|i: int|
            0 <= i < functions.len() && function_id_of(*(#[trigger] functions[i])) == Some(id) {
            let i = choose|i: int|
                0 <= i < functions.len() && function_id_of(*(#[trigger] functions[i])) == Some(id);
            if i < rest.len() {
                assert(function_id_of(*rest[i]) == Some(id));
            }
        }
    }
}

/// One more round either finds nothing or leaves fewer functions unknown.
pub proof fn lemma_round_shrinks<'a>(
    facts: FactsView<'a>,
    param_effects: Map<u32, Seq<ParamEffect>>,
    known: Map<u32, ReturnEffect>,
    upto: nat,
)
    requires
        upto <= facts.functions.len(),
    ensures
        round(facts, param_effects, known, upto) matches Ok(after) ==> after == known
            || unknown_count(facts.functions, after) < unknown_count(facts.functions, known),
    decreases upto,
{
    if upto > 0 {
        lemma_round_shrinks(facts, param_effects, known, (upto - 1) as nat);
        match round(facts, param_effects, known, (upto - 1) as nat) {
            Err(_) => {},
            Ok(so_far) => {
                let function = facts.functions[upto - 1];
                match looked_again(function, param_effects, so_far, facts) {
                    Ok(after) => {
                        if after != so_far {
                            let id = function_id_of(*function)->0;
                            lemma_unknown_insert(facts.functions, so_far, id, after[id.0]);
                            assert(function_id_of(*facts.functions[upto - 1]) == Some(id));
                        }
                    },
                    Err(_) => {},
                }
            },
        }
    }
}

/// Functions that return nothing hand over nothing.
pub open spec fn unit_effects<'a>(functions: Seq<&'a Expr>) -> Map<u32, ReturnEffect>
    decreases functions.len(),
{
    if functions.len() == 0 {
        Map::empty()
    } else {
        let rest = unit_effects(functions.drop_last());
        match (function_id_of(*functions.last()), functions.last().tyv()) {
            (Some(id), TyView::Func { ret, .. }) if *ret is Unit => rest.insert(
                id.0,
                ReturnEffect::Inline,
            ),
            _ => rest,
        }
    }
}

/// Every value that some functions return has the effect of its function.
pub open spec fn agreed<'a>(
    values: Seq<&'a Expr>,
    function: Expr,
    param_effects: Map<u32, Seq<ParamEffect>>,
    known: Map<u32, ReturnEffect>,
    facts: FactsView<'a>,
) -> Option<ErrorView>
    decreases values.len(),
{
    if values.len() == 0 {
        None
    } else {
        let value = values[0];
        match classified(value, function, param_effects, known, facts) {
            Err(error) => Some(error),
            Ok(None) => Some(
                broken_at(value.spec_span(), "收敛后 return dependency 仍未解析"@),
            ),
            Ok(Some(draft)) => if function_id_of(function) matches Some(id) && return_in(
                known,
                id.0,
            ) == Some(draft_effect(draft)) {
                agreed(values.drop_first(), function, param_effects, known, facts)
            } else {
                Some(
                    told(
                        value.spec_span(),
                        "同一函数的 return effect 或 borrowed source 不一致"@,
                    ),
                )
            },
        }
    }
}

pub open spec fn all_agreed<'a>(
    facts: FactsView<'a>,
    param_effects: Map<u32, Seq<ParamEffect>>,
    known: Map<u32, ReturnEffect>,
    upto: nat,
) -> Option<ErrorView>
    decreases upto,
{
    if upto == 0 {
        None
    } else {
        match all_agreed(facts, param_effects, known, (upto - 1) as nat) {
            Some(error) => Some(error),
            None => {
                let function = facts.functions[upto - 1];
                match return_values(function) {
                    Err(error) => Some(error),
                    Ok(values) => agreed(values, *function, param_effects, known, facts),
                }
            },
        }
    }
}

/// The first function whose effect stays unknown.
pub open spec fn first_unknown<'a>(
    functions: Seq<&'a Expr>,
    known: Map<u32, ReturnEffect>,
) -> Option<&'a Expr>
    decreases functions.len(),
{
    if functions.len() == 0 {
        None
    } else if is_unknown(known, *functions[0]) {
        Some(functions[0])
    } else {
        first_unknown(functions.drop_first(), known)
    }
}

/// What is known when no round finds anything more.
pub open spec fn rounds<'a>(
    facts: FactsView<'a>,
    param_effects: Map<u32, Seq<ParamEffect>>,
    known: Map<u32, ReturnEffect>,
) -> Result<Map<u32, ReturnEffect>, ErrorView>
    decreases unknown_count(facts.functions, known),
{
    proof {
        lemma_round_shrinks(facts, param_effects, known, facts.functions.len());
    }
    match round(facts, param_effects, known, facts.functions.len()) {
        Err(error) => Err(error),
        Ok(after) => match first_unknown(facts.functions, after) {
            None => match all_agreed(facts, param_effects, after, facts.functions.len()) {
                Some(error) => Err(error),
                None => Ok(after),
            },
            Some(function) => if after == known {
                Err(
                    told(
                        function.spec_span(),
                        "递归 return effect 无法得到唯一安全解"@,
                    ),
                )
            } else {
                rounds(facts, param_effects, after)
            },
        },
    }
}

/// What every function hands to its caller.
pub open spec fn inferred_returns<'a>(
    facts: FactsView<'a>,
    param_effects: Map<u32, Seq<ParamEffect>>,
) -> Result<Map<u32, ReturnEffect>, ErrorView> {
    rounds(facts, param_effects, unit_effects(facts.functions))
}

fn look_again<'a>(
    function: &'a Expr,
    parameter_effects: &EffectTable,
    known: &mut ReturnTable,
    facts: &ProgramFacts<'a>,
) -> (r: AliasResult<bool>)
    requires
        functions_ok(facts@.functions),
    ensures
        match looked_again(function, parameter_effects@, old(known)@, facts@) {
            Ok(after) => r matches Ok(changed) && final(known)@ == after && changed == (after
                != old(known)@),
            Err(error) => fault_of(r) == Some(error),
        },
{
    let values = match function_return_values(function) {
        Ok(values) => values,
        Err(error) => {
            return Err(error);
        },
    };
    let effect = match infer_own_effect(&values, function, parameter_effects, &*known, facts) {
        Ok(Some(effect)) => effect,
        Ok(None) => {
            return Ok(false);
        },
        Err(error) => {
            return Err(error);
        },
    };
    let id = match function {
        Expr::FuncLit { function_id, .. } => *function_id,
        _ => {
            return Ok(false);
        },
    };
    match known.get(id.0) {
        Some(existing) => {
            if existing != effect {
                return Err(error(function.span(), "递归 return effect 收敛到不一致结果"));
            }
            Ok(false)
        },
        None => {
            let ghost before = known@;
            known.insert(id.0, effect);
            assert(known@.contains_key(id.0) && !before.contains_key(id.0));
            Ok(true)
        },
    }
}

proof fn lemma_round_stop<'a>(
    facts: FactsView<'a>,
    param_effects: Map<u32, Seq<ParamEffect>>,
    known: Map<u32, ReturnEffect>,
    at: nat,
    upto: nat,
)
    requires
        at <= upto,
        round(facts, param_effects, known, at) is Err,
    ensures
        round(facts, param_effects, known, upto) == round(facts, param_effects, known, at),
    decreases upto - at,
{
    if at < upto {
        lemma_round_stop(facts, param_effects, known, at, (upto - 1) as nat);
    }
}

fn run_round<'a>(
    facts: &ProgramFacts<'a>,
    parameter_effects: &EffectTable,
    known: &mut ReturnTable,
) -> (r: AliasResult<bool>)
    requires
        functions_ok(facts@.functions),
    ensures
        match round(facts@, parameter_effects@, old(known)@, facts@.functions.len()) {
            Ok(after) => r matches Ok(changed) && final(known)@ == after && changed == (after
                != old(known)@),
            Err(error) => fault_of(r) == Some(error),
        },
{
    let ghost start = known@;
    let mut changed = false;
    let mut i: usize = 0;
    while i < facts.functions.len()
        invariant
            i <= facts.functions.len(),
            start == old(known)@,
            facts.functions@ == facts@.functions,
            functions_ok(facts@.functions),
            round(facts@, parameter_effects@, start, i as nat) == Ok::<
                Map<u32, ReturnEffect>,
                ErrorView,
            >(known@),
            changed == (known@ != start),
        decreases facts.functions.len() - i,
    {
        let ghost before = known@;
        proof {
            lemma_round_shrinks(facts@, parameter_effects@, start, i as nat);
            lemma_round_shrinks(facts@, parameter_effects@, start, (i + 1) as nat);
        }
        match look_again(facts.functions[i], parameter_effects, known, facts) {
            Ok(found) => {
                if found {
                    proof {
                        let function = facts@.functions[i as int];
                        let id = function_id_of(*function)->0;
                        lemma_unknown_insert(facts@.functions, before, id, known@[id.0]);
                        assert(function_id_of(*facts@.functions[i as int]) == Some(id));
                    }
                    changed = true;
                }
            },
            Err(error) => {
                proof {
                    lemma_round_stop(
                        facts@,
                        parameter_effects@,
                        start,
                        (i + 1) as nat,
                        facts@.functions.len(),
                    );
                }
                return Err(error);
            },
        }
        i += 1;
    }
    Ok(changed)
}

fn find_unknown<'a>(functions: &Vec<&'a Expr>, known: &ReturnTable) -> (r: Option<&'a Expr>)
    ensures
        r == first_unknown(functions@, known@),
{
    let ghost goal = first_unknown(functions@, known@);
    let mut i: usize = 0;
    assert(functions@.skip(0) =~= functions@);
    while i < functions.len()
        invariant
            i <= functions.len(),
            goal == first_unknown(functions@, known@),
            goal == first_unknown(functions@.skip(i as int), known@),
        decreases functions.len() - i,
    {
        proof {
            assert(functions@.skip(i as int).drop_first() =~= functions@.skip(i + 1));
            assert(functions@.skip(i as int)[0] == functions@[i as int]);
        }
        if let Expr::FuncLit { function_id, .. } = functions[i] {
            if known.get(function_id.0).is_none() {
                return Some(functions[i]);
            }
        }
        i += 1;
    }
    assert(functions@.skip(i as int) =~= Seq::empty());
    None
}

fn agree<'a>(
    values: &Vec<&'a Expr>,
    function: &Expr,
    parameter_effects: &EffectTable,
    known: &ReturnTable,
    facts: &ProgramFacts<'a>,
) -> (r: AliasResult<()>)
    requires
        functions_ok(facts@.functions),
    ensures
        fault_of(r) == agreed(values@, *function, parameter_effects@, known@, facts@),
{
    let ghost goal = agreed(values@, *function, parameter_effects@, known@, facts@);
    let own = match function {
        Expr::FuncLit { function_id, .. } => known.get(function_id.0),
        _ => None,
    };
    let mut i: usize = 0;
    assert(values@.skip(0) =~= values@);
    while i < values.len()
        invariant
            i <= values.len(),
            functions_ok(facts@.functions),
            own == match function_id_of(*function) {
                Some(id) => return_in(known@, id.0),
                None => None,
            },
            goal == agreed(values@, *function, parameter_effects@, known@, facts@),
            goal == agreed(
                values@.skip(i as int),
                *function,
                parameter_effects@,
                known@,
                facts@,
            ),
        decreases values.len() - i,
    {
        proof {
            assert(values@.skip(i as int).drop_first() =~= values@.skip(i + 1));
            assert(values@.skip(i as int)[0] == values@[i as int]);
        }
        let value = values[i];
        match classify_return_expr(value, function, parameter_effects, known, facts) {
            Err(error) => {
                return Err(error);
            },
            Ok(None) => {
                return Err(broken_invariant(value.span(), "收敛后 return dependency 仍未解析"));
            },
            Ok(Some(draft)) => {
                if own != Some(draft.effect()) {
                    return Err(
                        error(value.span(), "同一函数的 return effect 或 borrowed source 不一致"),
                    );
                }
            },
        }
        i += 1;
    }
    assert(values@.skip(i as int) =~= Seq::empty());
    Ok(())
}

proof fn lemma_agreed_stop<'a>(
    facts: FactsView<'a>,
    param_effects: Map<u32, Seq<ParamEffect>>,
    known: Map<u32, ReturnEffect>,
    at: nat,
    upto: nat,
)
    requires
        at <= upto,
        all_agreed(facts, param_effects, known, at) is Some,
    ensures
        all_agreed(facts, param_effects, known, upto) == all_agreed(
            facts,
            param_effects,
            known,
            at,
        ),
    decreases upto - at,
{
    if at < upto {
        lemma_agreed_stop(facts, param_effects, known, at, (upto - 1) as nat);
    }
}

fn all_agree<'a>(
    facts: &ProgramFacts<'a>,
    parameter_effects: &EffectTable,
    known: &ReturnTable,
) -> (r: AliasResult<()>)
    requires
        functions_ok(facts@.functions),
    ensures
        fault_of(r) == all_agreed(facts@, parameter_effects@, known@, facts@.functions.len()),
{
    let mut i: usize = 0;
    while i < facts.functions.len()
        invariant
            i <= facts.functions.len(),
            facts.functions@ == facts@.functions,
            functions_ok(facts@.functions),
            all_agreed(facts@, parameter_effects@, known@, i as nat) is None,
        decreases facts.functions.len() - i,
    {
        let function = facts.functions[i];
        let ghost next = all_agreed(facts@, parameter_effects@, known@, (i + 1) as nat);
        let result = match function_return_values(function) {
            Ok(values) => agree(&values, function, parameter_effects, known, facts),
            Err(error) => Err(error),
        };
        assert(fault_of(result) == next);
        if result.is_err() {
            proof {
                lemma_agreed_stop(
                    facts@,
                    parameter_effects@,
                    known@,
                    (i + 1) as nat,
                    facts@.functions.len(),
                );
            }
            return result;
        }
        i += 1;
    }
    Ok(())
}

fn seed_units<'a>(functions: &Vec<&'a Expr>) -> (r: ReturnTable)
    ensures
        r@ == unit_effects(functions@),
{
    let mut known = ReturnTable::new();
    let mut i: usize = 0;
    while i < functions.len()
        invariant
            i <= functions.len(),
            known@ == unit_effects(functions@.take(i as int)),
        decreases functions.len() - i,
    {
        proof {
            assert(functions@.take(i + 1).drop_last() =~= functions@.take(i as int));
            assert(functions@.take(i + 1).last() == functions@[i as int]);
        }
        if let Expr::FuncLit { function_id, .. } = functions[i] {
            if let Ty::Func { ret, .. } = functions[i].ty() {
                assert((**ret)@ is Unit <==> **ret is Unit);
                if let Ty::Unit = **ret {
                    known.insert(function_id.0, ReturnEffect::Inline);
                }
            }
        }
        i += 1;
    }
    assert(functions@.take(i as int) =~= functions@);
    known
}

/// Finds out what every function hands to its caller.
///
/// A function that returns nothing hands over nothing. The others are looked at again and again,
/// because what one returns may be what a call of another returns.
pub fn infer_return_effects<'a>(
    facts: &ProgramFacts<'a>,
    parameter_effects: &EffectTable,
) -> (r: AliasResult<ReturnTable>)
    requires
        functions_ok(facts@.functions),
    ensures
        match inferred_returns(facts@, parameter_effects@) {
            Ok(effects) => r matches Ok(table) && table@ == effects,
            Err(error) => fault_of(r) == Some(error),
        },
{
    let mut known = seed_units(&facts.functions);
    loop
        invariant
            functions_ok(facts@.functions),
            facts.functions@ == facts@.functions,
            inferred_returns(facts@, parameter_effects@) == rounds(
                facts@,
                parameter_effects@,
                known@,
            ),
        decreases unknown_count(facts@.functions, known@),
    {
        proof {
            lemma_round_shrinks(facts@, parameter_effects@, known@, facts@.functions.len());
        }
        let changed = match run_round(facts, parameter_effects, &mut known) {
            Ok(changed) => changed,
            Err(error) => {
                return Err(error);
            },
        };
        match find_unknown(&facts.functions, &known) {
            None => {
                return match all_agree(facts, parameter_effects, &known) {
                    Ok(()) => Ok(known),
                    Err(error) => Err(error),
                };
            },
            Some(function) => {
                if !changed {
                    return Err(error(function.span(), "递归 return effect 无法得到唯一安全解"));
                }
            },
        }
    }
}

/// What the entry of a program returns must not own or borrow anything.
pub open spec fn main_return_fault<'a>(
    facts: FactsView<'a>,
    return_effects: Map<u32, ReturnEffect>,
) -> Option<ErrorView> {
    match bound_function(facts, facts.program.main_id) {
        None => Some(broken_at(no_span(), "main binding 缺少 FunctionId"@)),
        Some(id) => if return_in(return_effects, id.0) == Some(ReturnEffect::Inline) {
            None
        } else {
            Some(
                told(
                    match function_in(facts.functions, id) {
                        Some(function) => function.spec_span(),
                        None => no_span(),
                    },
                    "main 必须返回 Inline i32，不能返回 ownership/borrow effect"@,
                ),
            )
        },
    }
}

pub fn validate_main_return_effect<'a>(
    facts: &ProgramFacts<'a>,
    return_effects: &ReturnTable,
) -> (r: AliasResult<()>)
    ensures
        fault_of(r) == main_return_fault(facts@, return_effects@),
{
    let id = match facts.bound(facts.program.main_id) {
        Some(id) => id,
        None => {
            return Err(broken_invariant(Span::default(), "main binding 缺少 FunctionId"));
        },
    };
    if return_effects.get(id.0) != Some(ReturnEffect::Inline) {
        let span = match facts.function(id) {
            Some(function) => function.span(),
            None => Span::default(),
        };
        return Err(error(span, "main 必须返回 Inline i32，不能返回 ownership/borrow effect"));
    }
    Ok(())
}

proof fn lemma_round_keeps<'a>(
    facts: FactsView<'a>,
    param_effects: Map<u32, Seq<ParamEffect>>,
    known: Map<u32, ReturnEffect>,
    upto: nat,
)
    ensures
        round(facts, param_effects, known, upto) matches Ok(after) ==> known.submap_of(after),
    decreases upto,
{
    if upto > 0 {
        lemma_round_keeps(facts, param_effects, known, (upto - 1) as nat);
    }
}

proof fn lemma_rounds_keep<'a>(
    facts: FactsView<'a>,
    param_effects: Map<u32, Seq<ParamEffect>>,
    known: Map<u32, ReturnEffect>,
)
    ensures
        rounds(facts, param_effects, known) matches Ok(after) ==> known.submap_of(after)
            && first_unknown(facts.functions, after) is None && all_agreed(
            facts,
            param_effects,
            after,
            facts.functions.len(),
        ) is None,
    decreases unknown_count(facts.functions, known),
{
    lemma_round_shrinks(facts, param_effects, known, facts.functions.len());
    lemma_round_keeps(facts, param_effects, known, facts.functions.len());
    match round(facts, param_effects, known, facts.functions.len()) {
        Ok(after) => {
            if first_unknown(facts.functions, after) is Some && after != known {
                lemma_rounds_keep(facts, param_effects, after);
                if rounds(facts, param_effects, after) is Ok {
                    let last = rounds(facts, param_effects, after)->Ok_0;
                    assert forall|id: u32| #[trigger] known.dom().contains(id) implies
                        last.dom().contains(id) && last[id] == known[id] by {
                        assert(after.dom().contains(id));
                    }
                    assert(known.submap_of(last));
                }
                assert(rounds(facts, param_effects, known) == rounds(facts, param_effects, after));
            }
        },
        Err(_) => {},
    }
}

proof fn lemma_all_known<'a>(functions: Seq<&'a Expr>, known: Map<u32, ReturnEffect>, i: int)
    requires
        first_unknown(functions, known) is None,
        0 <= i < functions.len(),
    ensures
        !is_unknown(known, *functions[i]),
    decreases functions.len(),
{
    if i > 0 {
        lemma_all_known(functions.drop_first(), known, i - 1);
        assert(functions.drop_first()[i - 1] == functions[i]);
    }
}

proof fn lemma_agreed_each<'a>(
    values: Seq<&'a Expr>,
    function: Expr,
    param_effects: Map<u32, Seq<ParamEffect>>,
    known: Map<u32, ReturnEffect>,
    facts: FactsView<'a>,
    k: int,
)
    requires
        agreed(values, function, param_effects, known, facts) is None,
        0 <= k < values.len(),
    ensures
        has_effect(values[k], function, param_effects, known, facts),
    decreases values.len(),
{
    if k > 0 {
        lemma_agreed_each(values.drop_first(), function, param_effects, known, facts, k - 1);
        assert(values.drop_first()[k - 1] == values[k]);
    }
}

/// A value that a function returns has the effect that is known of the function.
pub open spec fn has_effect<'a>(
    value: &'a Expr,
    function: Expr,
    param_effects: Map<u32, Seq<ParamEffect>>,
    known: Map<u32, ReturnEffect>,
    facts: FactsView<'a>,
) -> bool {
    &&& function_id_of(function) is Some
    &&& classified(value, function, param_effects, known, facts) matches Ok(Some(draft))
        && return_in(known, (function_id_of(function)->0).0) == Some(draft_effect(draft))
}

/// When the effects of the functions are found, every function has one, and every value that a
/// function returns has the effect of its function.
pub proof fn law_every_return_agrees<'a>(
    facts: FactsView<'a>,
    param_effects: Map<u32, Seq<ParamEffect>>,
    i: int,
    k: int,
)
    requires
        inferred_returns(facts, param_effects) is Ok,
        0 <= i < facts.functions.len(),
        return_values(facts.functions[i]) is Ok,
    ensures
        !is_unknown(inferred_returns(facts, param_effects)->Ok_0, *facts.functions[i]),
        0 <= k < return_values(facts.functions[i])->Ok_0.len() ==> has_effect(
            return_values(facts.functions[i])->Ok_0[k],
            *facts.functions[i],
            param_effects,
            inferred_returns(facts, param_effects)->Ok_0,
            facts,
        ),
{
    let known = inferred_returns(facts, param_effects)->Ok_0;
    lemma_rounds_keep(facts, param_effects, unit_effects(facts.functions));
    lemma_all_known(facts.functions, known, i);
    if all_agreed(facts, param_effects, known, (i + 1) as nat) is Some {
        lemma_agreed_stop(facts, param_effects, known, (i + 1) as nat, facts.functions.len());
    }
    if 0 <= k < return_values(facts.functions[i])->Ok_0.len() {
        lemma_agreed_each(
            return_values(facts.functions[i])->Ok_0,
            *facts.functions[i],
            param_effects,
            known,
            facts,
            k,
        );
    }
}

/// A function that returns nothing is known to hand over nothing.
pub proof fn law_units_stay_inline<'a>(
    facts: FactsView<'a>,
    param_effects: Map<u32, Seq<ParamEffect>>,
)
    requires
        inferred_returns(facts, param_effects) is Ok,
    ensures
        unit_effects(facts.functions).submap_of(inferred_returns(facts, param_effects)->Ok_0),
{
    lemma_rounds_keep(facts, param_effects, unit_effects(facts.functions));
}

} // verus!
