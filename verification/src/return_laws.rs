//! What a returned value means for the caller.

use crate::expr_places::{place_of, tree_root};
use crate::function_facts::{FactsView, function_id_of, is_alias, method_in, param_ids};
use crate::model::{
    ArgumentPass, ArmBody, CallArg, CallTarget, Expr, Item, MatchArm, MethodTarget,
    OwnershipCapability, ResolvedConversion, Stmt, ValueCategory, place_root,
};
use crate::return_effects::{
    DraftView, below, call_draft, call_source, callee_effect, classified, explicit_ids,
    function_ids, inferred_returns, law_every_return_agrees, lemma_below_shrinks, origin_of,
    ret_values, return_in, return_values, return_walk, returned_at, returned_from, shared_effect,
};
use crate::tree::place_tree;
use crate::types::{
    BindingId, ErrorView, FunctionId, ParamEffect, ReturnBorrowSource, ReturnEffect, Span, TyView,
};
use crate::visit::{Node, Visit, body_visits, visit_kids, walk_all};
use vstd::prelude::*;

verus! {

/// Values of the type own something outside themselves.
pub open spec fn owns_storage(ty: TyView) -> bool {
    match ty {
        TyView::Int(_) => false,
        TyView::UInt(_) => false,
        TyView::Float(_) => false,
        TyView::Bool => false,
        TyView::Unit => false,
        TyView::Ptr { .. } => false,
        TyView::FuncPoly => false,
        TyView::Unknown => false,
        _ => true,
    }
}

/// The value behind conversions that change nothing.
pub open spec fn plainly(value: Expr) -> Expr
    decreases value,
{
    match value {
        Expr::Convert { expr, mode: ResolvedConversion::Identity, .. } => plainly(*expr),
        _ => value,
    }
}

/// The value is what a function of the program hands back.
pub open spec fn handed_back(value: Expr) -> bool {
    match value {
        Expr::Call { target: CallTarget::FunctionValue, .. } => true,
        Expr::MethodCall { target: MethodTarget::User { .. }, .. } => true,
        _ => false,
    }
}

/// The caller gets the value itself.
pub open spec fn by_value(draft: DraftView) -> bool {
    match draft {
        DraftView::Inline => true,
        _ => false,
    }
}

/// The caller becomes the owner.
pub open spec fn by_owner(draft: DraftView) -> bool {
    match draft {
        DraftView::OwnedValue => true,
        DraftView::OwnedTransfer(_) => true,
        _ => false,
    }
}

/// The caller gets an alias.
pub open spec fn by_alias(draft: DraftView) -> bool {
    match draft {
        DraftView::BorrowPlace(_, _) => true,
        DraftView::BorrowValue(_) => true,
        _ => false,
    }
}

/// A source names the variable: as what the method was called on, as the parameter at an index,
/// or as a variable outside all functions.
pub open spec fn names<'a>(
    source: ReturnBorrowSource,
    function: Expr,
    facts: FactsView<'a>,
    root: BindingId,
) -> bool {
    match source {
        ReturnBorrowSource::SelfValue => match function {
            Expr::FuncLit { implicit_bindings, params, .. } => implicit_bindings@.len() > 0
                && implicit_bindings@[0] == root,
            _ => false,
        },
        ReturnBorrowSource::Parameter(k) => match function {
            Expr::FuncLit { params, .. } => k < params@.len() && params@[k as int].binding_id == root,
            _ => false,
        },
        ReturnBorrowSource::Global(id) => id == root && exists|i: int|
            0 <= i < facts.program.items@.len() && (#[trigger] facts.program.items@[i] matches
                Item::Binding(binding) && binding.binding_id == root),
    }
}

proof fn lemma_origin<'a>(root: BindingId, function: Expr, facts: FactsView<'a>)
    ensures
        origin_of(root, function, facts) matches Some(source) ==> names(
            source,
            function,
            facts,
            root,
        ),
        origin_of(root, function, facts) is None ==> forall|source: ReturnBorrowSource|
            source is Global ==> !#[trigger] names(source, function, facts, root),
        function is FuncLit && param_ids(function).len() <= usize::MAX && origin_of(
            root,
            function,
            facts,
        ) is None ==> forall|k: usize| !#[trigger] names(
            ReturnBorrowSource::Parameter(k),
            function,
            facts,
            root,
        ),
{
    if let Expr::FuncLit { params, implicit_bindings, .. } = function {
        let ids = param_ids(function);
        let n = implicit_bindings@.len();
        let own = explicit_ids(function);
        assert(own.len() == params@.len());
        assert(forall|k: int| 0 <= k < own.len() ==> #[trigger] own[k] == params@[k].binding_id);
        if n > 0 {
            assert(ids[0] == implicit_bindings@[0]);
        }
        if own.contains(root) {
            own.index_of_first_ensures(root);
            assert(params@.len() == params.len());
        }
        assert forall|k: usize| k < params@.len() && params@[k as int].binding_id
            == root implies own.contains(root) by {
            assert(own[k as int] == root);
        }
    } else {
        assert(explicit_ids(function).len() == 0);
    }
}

/// A returned value that owns storage never leaves as a plain value, and one that owns none is
/// handed over as nothing else unless it is an alias. What is moved or made anew gets a new
/// owner; what is borrowed leaves as an alias.
pub proof fn law_returned_values_keep_their_owners<'a>(
    value: &'a Expr,
    function: Expr,
    param_effects: Map<u32, Seq<ParamEffect>>,
    return_effects: Map<u32, ReturnEffect>,
    facts: FactsView<'a>,
    draft: DraftView,
)
    requires
        classified(value, function, param_effects, return_effects, facts) == Ok::<
            Option<DraftView>,
            ErrorView,
        >(Some(draft)),
        !handed_back(plainly(*value)),
    ensures
        plainly(*value) is Borrow ==> by_alias(draft),
        !(plainly(*value) is Borrow) ==> {
            &&& owns_storage(plainly(*value).tyv()) ==> !by_value(draft)
            &&& !owns_storage(plainly(*value).tyv()) ==> by_value(draft)
        },
        plainly(*value) is Move ==> !by_alias(draft),
        plainly(*value) is Move && owns_storage(plainly(*value).tyv()) ==> by_owner(draft),
        plainly(*value).spec_value_category() == Some(ValueCategory::OwnedTemporary) && plainly(
            *value,
        ).spec_info().ownership_capability == Some(OwnershipCapability::Available) && !(plainly(
            *value,
        ) is Borrow) ==> !by_alias(draft) && !(draft is OwnedTransfer),
    decreases value,
{
    match *value {
        Expr::Convert { expr: inner, mode: ResolvedConversion::Identity, .. } => {
            law_returned_values_keep_their_owners(
                &*inner,
                function,
                param_effects,
                return_effects,
                facts,
                draft,
            );
        },
        _ => {},
    }
}

/// An alias that is handed out names a variable that outlives the function: what the method was
/// called on, a parameter, or one outside all functions. A variable is handed over whole, and
/// only where the function owns it: not where it is an alias, captured or outside the function.
pub proof fn law_returned_places_outlive_the_function<'a>(
    value: &'a Expr,
    function: Expr,
    param_effects: Map<u32, Seq<ParamEffect>>,
    return_effects: Map<u32, ReturnEffect>,
    facts: FactsView<'a>,
    draft: DraftView,
)
    requires
        classified(value, function, param_effects, return_effects, facts) == Ok::<
            Option<DraftView>,
            ErrorView,
        >(Some(draft)),
        !handed_back(plainly(*value)),
    ensures
        plainly(*value) matches Expr::Borrow { source, .. } ==> match draft {
            DraftView::BorrowValue(origin) => names(origin, function, facts, place_root(*source)),
            _ => false,
        },
        match draft {
            DraftView::BorrowPlace(place, origin) => {
                &&& place_of(plainly(*value)) == Some(place)
                &&& names(origin, function, facts, tree_root(place))
                &&& !is_alias(facts, tree_root(place))
                &&& !hands_over(param_effects, function, tree_root(place))
            },
            DraftView::OwnedTransfer(place) => {
                &&& place_of(plainly(*value)) == Some(place)
                &&& place.label is LocalPlace
                &&& !is_alias(facts, tree_root(place))
                &&& hands_over(param_effects, function, tree_root(place)) || (!taken_in(
                    function,
                    tree_root(place),
                ) && !stands_outside(facts, tree_root(place)))
            },
            _ => true,
        },
    decreases value,
{
    match *value {
        Expr::Convert { expr: inner, mode: ResolvedConversion::Identity, .. } => {
            law_returned_places_outlive_the_function(
                &*inner,
                function,
                param_effects,
                return_effects,
                facts,
                draft,
            );
        },
        Expr::Borrow { source, .. } => {
            lemma_origin(place_root(*source), function, facts);
        },
        Expr::Move { .. } => {},
        _ => {
            if let Some(place) = place_of(*value) {
                let root = tree_root(place);
                lemma_origin(root, function, facts);
                lemma_hands_over(param_effects, function, root);
                if stands_outside(facts, root) {
                    assert(names(ReturnBorrowSource::Global(root), function, facts, root));
                }
            }
        },
    }
}

/// The variable stands outside all functions.
pub open spec fn stands_outside<'a>(facts: FactsView<'a>, root: BindingId) -> bool {
    exists|i: int|
        0 <= i < facts.program.items@.len() && (#[trigger] facts.program.items@[i] matches
            Item::Binding(binding) && binding.binding_id == root)
}

/// The function takes the variable in from its surroundings.
pub open spec fn taken_in(function: Expr, root: BindingId) -> bool {
    match function {
        Expr::FuncLit { captures, .. } => exists|i: int|
            0 <= i < captures@.len() && (#[trigger] captures@[i]).binding_id == root,
        _ => false,
    }
}

/// The variable is a parameter that the function was given to own. Where two parameters are the
/// same variable, the first counts.
pub open spec fn hands_over(
    effects: Map<u32, Seq<ParamEffect>>,
    function: Expr,
    root: BindingId,
) -> bool {
    match function {
        Expr::FuncLit { function_id, .. } => {
            &&& effects.contains_key(function_id.0)
            &&& exists|k: int|
                0 <= k < param_ids(function).len() && k < effects[function_id.0].len()
                    && #[trigger] param_ids(function)[k] == root && effects[function_id.0][k]
                    == ParamEffect::Owned && forall|j: int|
                    0 <= j < k ==> #[trigger] param_ids(function)[j] != root
        },
        _ => false,
    }
}

proof fn lemma_hands_over(
    effects: Map<u32, Seq<ParamEffect>>,
    function: Expr,
    root: BindingId,
)
    ensures
        crate::return_effects::owns_param(effects, function, root) <==> hands_over(
            effects,
            function,
            root,
        ),
{
    let ids = param_ids(function);
    if ids.contains(root) {
        ids.index_of_first_ensures(root);
    }
    if hands_over(effects, function, root) {
        if let Expr::FuncLit { function_id, .. } = function {
            let k = choose|k: int|
                0 <= k < param_ids(function).len() && k < effects[function_id.0].len()
                    && #[trigger] param_ids(function)[k] == root && effects[function_id.0][k]
                    == ParamEffect::Owned && forall|j: int|
                    0 <= j < k ==> #[trigger] param_ids(function)[j] != root;
            assert(ids[k] == root);
            assert(ids.contains(root));
            let first = ids.index_of_first(root)->0;
            assert(ids[first] == root);
            assert(first == k);
        }
    }
}

/// The effect of a call leaves as it came: plain values as plain values, owned ones as owned
/// ones, and an alias as an alias of what the argument behind it is an alias of.
pub open spec fn handed_on<'a>(
    effect: ReturnEffect,
    receiver_pass: Option<ArgumentPass>,
    args: Seq<CallArg>,
    function: Expr,
    facts: FactsView<'a>,
    draft: DraftView,
) -> bool {
    match effect {
        ReturnEffect::Inline => draft is Inline,
        ReturnEffect::Owned => draft is OwnedValue,
        ReturnEffect::Borrowed(source) => match draft {
            DraftView::BorrowValue(origin) => match source {
                ReturnBorrowSource::SelfValue => match receiver_pass {
                    Some(pass) => lent_root(pass) is Some && names(
                        origin,
                        function,
                        facts,
                        lent_root(pass)->0,
                    ),
                    None => false,
                },
                ReturnBorrowSource::Parameter(k) => k < args.len() && match args[k as int].pass {
                    Some(pass) => lent_root(pass) is Some && names(
                        origin,
                        function,
                        facts,
                        lent_root(pass)->0,
                    ),
                    None => false,
                },
                ReturnBorrowSource::Global(root) => names(origin, function, facts, root),
            },
            _ => false,
        },
    }
}

/// The variable that an argument lends to the function that is called.
pub open spec fn lent_root(pass: ArgumentPass) -> Option<BindingId> {
    match pass {
        ArgumentPass::ReadBorrow { source, .. } => Some(place_root(source)),
        ArgumentPass::WriteBorrow { source, .. } => Some(place_root(source)),
        _ => None,
    }
}

proof fn lemma_call_draft<'a>(
    effect: ReturnEffect,
    receiver_pass: Option<ArgumentPass>,
    args: Seq<CallArg>,
    function: Expr,
    facts: FactsView<'a>,
    span: Span,
    draft: DraftView,
)
    requires
        call_draft(effect, receiver_pass, args, function, facts, span) == Ok::<
            Option<DraftView>,
            ErrorView,
        >(Some(draft)),
    ensures
        handed_on(effect, receiver_pass, args, function, facts, draft),
{
    if let ReturnEffect::Borrowed(source) = effect {
        let tree = call_source(source, receiver_pass, args, facts, span)->Ok_0;
        lemma_origin(tree_root(tree), function, facts);
        match source {
            ReturnBorrowSource::SelfValue => lemma_lent(receiver_pass->0),
            ReturnBorrowSource::Parameter(k) => lemma_lent(args[k as int].pass->0),
            ReturnBorrowSource::Global(_) => {},
        }
    }
}

proof fn lemma_lent(pass: ArgumentPass)
    ensures
        match pass {
            ArgumentPass::ReadBorrow { source, .. } => tree_root(place_tree(source)) == place_root(
                source,
            ),
            ArgumentPass::WriteBorrow { source, .. } => tree_root(place_tree(source))
                == place_root(source),
            _ => true,
        },
{
    match pass {
        ArgumentPass::ReadBorrow { source, .. } => crate::expr_places::lemma_place_root(source),
        ArgumentPass::WriteBorrow { source, .. } => crate::expr_places::lemma_place_root(source),
        _ => {},
    }
}

pub proof fn lemma_shared(
    ids: Seq<FunctionId>,
    effects: Map<u32, ReturnEffect>,
    span: Span,
    known: Option<ReturnEffect>,
    effect: ReturnEffect,
)
    requires
        shared_effect(ids, effects, span, known) == Ok::<Option<ReturnEffect>, ErrorView>(
            Some(effect),
        ),
    ensures
        forall|i: int| 0 <= i < ids.len() ==> return_in(effects, (#[trigger] ids[i]).0) == Some(
            effect,
        ),
        known matches Some(before) ==> before == effect,
    decreases ids.len(),
{
    if ids.len() > 0 {
        let candidate = return_in(effects, ids[0].0)->0;
        lemma_shared(ids.drop_first(), effects, span, Some(candidate), effect);
        assert forall|i: int| 0 <= i < ids.len() implies return_in(effects, (#[trigger] ids[i]).0)
            == Some(effect) by {
            if i > 0 {
                assert(ids.drop_first()[i - 1] == ids[i]);
            }
        }
    }
}

/// What a call hands back is handed on as it is: every function that may be called has the same
/// effect, and the result leaves with it.
pub proof fn law_results_of_calls_are_handed_on<'a>(
    value: &'a Expr,
    function: Expr,
    param_effects: Map<u32, Seq<ParamEffect>>,
    return_effects: Map<u32, ReturnEffect>,
    facts: FactsView<'a>,
    draft: DraftView,
)
    requires
        classified(value, function, param_effects, return_effects, facts) == Ok::<
            Option<DraftView>,
            ErrorView,
        >(Some(draft)),
    ensures
        match plainly(*value) {
            Expr::Call { callee, args, target: CallTarget::FunctionValue, .. } => {
                &&& function_ids(&*callee, function_id_of(function), facts) is Ok
                &&& exists|effect: ReturnEffect| #[trigger]
                    handed_on(effect, None, args@, function, facts, draft) && forall|i: int|
                        0 <= i < function_ids(
                            &*callee,
                            function_id_of(function),
                            facts,
                        )->Ok_0.len() ==> return_in(
                            return_effects,
                            (#[trigger] function_ids(
                                &*callee,
                                function_id_of(function),
                                facts,
                            )->Ok_0[i]).0,
                        ) == Some(effect)
            },
            Expr::MethodCall {
                receiver_pass,
                args,
                target: MethodTarget::User { id, .. },
                ..
            } => {
                &&& method_in(facts.bindings, id) matches Some(callee)
                &&& return_in(return_effects, callee.0) matches Some(effect)
                &&& handed_on(effect, receiver_pass, args@, function, facts, draft)
            },
            _ => true,
        },
    decreases value,
{
    let span = value.spec_span();
    match *value {
        Expr::Convert { expr: inner, mode: ResolvedConversion::Identity, .. } => {
            law_results_of_calls_are_handed_on(
                &*inner,
                function,
                param_effects,
                return_effects,
                facts,
                draft,
            );
        },
        Expr::Call { callee, args, target: CallTarget::FunctionValue, .. } => {
            let effect = callee_effect(
                &*callee,
                function_id_of(function),
                facts,
                return_effects,
            )->Ok_0->0;
            let ids = function_ids(&*callee, function_id_of(function), facts)->Ok_0;
            lemma_shared(ids, return_effects, callee.spec_span(), None, effect);
            lemma_call_draft(effect, None, args@, function, facts, span, draft);
        },
        Expr::MethodCall {
            receiver_pass,
            args,
            target: MethodTarget::User { id, .. },
            ..
        } => {
            let callee = method_in(facts.bindings, id)->0;
            let effect = return_in(return_effects, callee.0)->0;
            lemma_call_draft(effect, receiver_pass, args@, function, facts, span, draft);
        },
        _ => {},
    }
}

/// The functions of a program hand over what they return: once their effects are found, one that
/// returns a value with storage of its own never has the effect of a plain value, and one that
/// returns a plain value has no other, unless it returns an alias.
pub proof fn law_functions_hand_over_what_they_return<'a>(
    facts: FactsView<'a>,
    param_effects: Map<u32, Seq<ParamEffect>>,
    i: int,
    k: int,
)
    requires
        inferred_returns(facts, param_effects) is Ok,
        0 <= i < facts.functions.len(),
        return_values(facts.functions[i]) is Ok,
        0 <= k < return_values(facts.functions[i])->Ok_0.len(),
        !handed_back(plainly(*return_values(facts.functions[i])->Ok_0[k])),
    ensures
        ({
            let value = plainly(*return_values(facts.functions[i])->Ok_0[k]);
            match function_id_of(*facts.functions[i]) {
                Some(id) => match return_in(inferred_returns(facts, param_effects)->Ok_0, id.0) {
                    Some(ReturnEffect::Inline) => !(value is Borrow) && !owns_storage(value.tyv()),
                    Some(ReturnEffect::Owned) => !(value is Borrow) && owns_storage(value.tyv()),
                    Some(ReturnEffect::Borrowed(_)) => value is Borrow || (owns_storage(value.tyv())
                        && !(value is Move)),
                    None => false,
                },
                None => false,
            }
        }),
{
    law_every_return_agrees(facts, param_effects, i, k);
    let known = inferred_returns(facts, param_effects)->Ok_0;
    let value = return_values(facts.functions[i])->Ok_0[k];
    let function = *facts.functions[i];
    let draft = classified(value, function, param_effects, known, facts)->Ok_0->0;
    law_returned_values_keep_their_owners(value, function, param_effects, known, facts, draft);
}

/// The node hands a value back: a return with a value, or an arm of a match that returns.
pub open spec fn hands_back<'a>(visit: Visit<'a>, value: Expr) -> bool {
    match visit.node {
        Node::Stmt(stmt) => match *stmt {
            Stmt::Return { value: given } => given == Some(value),
            _ => false,
        },
        Node::Expr(expr, position) => !(position is Returned) && match *expr {
            Expr::Match { arms, .. } => exists|i: int|
                0 <= i < arms@.len() && match (#[trigger] arms@[i]).body {
                    ArmBody::Ret(given) => *given == value,
                    _ => false,
                },
            _ => false,
        },
        _ => false,
    }
}

/// What stands inside the node belongs to the function around it: the node is no function, and
/// nothing that is handed back as a whole.
pub open spec fn looks_inside<'a>(visit: Visit<'a>) -> bool {
    match visit.node {
        Node::Stmt(stmt) => match *stmt {
            Stmt::Return { value } => value is None,
            _ => true,
        },
        Node::Expr(expr, position) => !(position is Returned) && !(*expr is FuncLit),
        _ => true,
    }
}

/// Nodes each of which stands directly inside the one before it.
pub open spec fn nested<'a>(chain: Seq<Visit<'a>>) -> bool {
    forall|i: int|
        #![trigger chain[i]]
        0 <= i < chain.len() - 1 ==> looks_inside(chain[i]) && visit_kids(
            return_walk(),
            chain[i],
        ).contains(chain[i + 1])
}

proof fn lemma_handed_back<'a>(visit: Visit<'a>, value: Expr)
    requires
        hands_back(visit, value),
    ensures
        exists|k: int| 0 <= k < returned_at(visit).len() && *#[trigger] returned_at(visit)[k] == value,
{
    match visit.node {
        Node::Stmt(_) => {
            assert(*returned_at(visit)[0] == value);
        },
        Node::Expr(expr, _) => {
            if let Expr::Match { arms, .. } = *expr {
                let i = choose|i: int|
                    0 <= i < arms@.len() && match (#[trigger] arms@[i]).body {
                        ArmBody::Ret(given) => *given == value,
                        _ => false,
                    };
                let k = lemma_ret_value(arms@, i, value);
                assert(*returned_at(visit)[k] == value);
            }
        },
        _ => {},
    }
}

proof fn lemma_ret_value<'a>(arms: Seq<MatchArm>, i: int, value: Expr) -> (k: int)
    requires
        0 <= i < arms.len(),
        match arms[i].body {
            ArmBody::Ret(given) => *given == value,
            _ => false,
        },
    ensures
        0 <= k < ret_values(arms).len(),
        *ret_values(arms)[k] == value,
    decreases arms.len(),
{
    if i == arms.len() - 1 {
        0
    } else {
        let k = lemma_ret_value(arms.drop_last(), i, value);
        match arms.last().body {
            ArmBody::Ret(_) => k + 1,
            _ => k,
        }
    }
}

proof fn lemma_returned<'a>(list: Seq<Visit<'a>>, chain: Seq<Visit<'a>>, j: int, value: Expr) -> (k:
    int)
    requires
        chain.len() > 0,
        0 <= j < list.len(),
        list[j] == chain[0],
        nested(chain),
        hands_back(chain[chain.len() - 1], value),
    ensures
        0 <= k < returned_from(list).len(),
        *returned_from(list)[k] == value,
    decreases walk_all(return_walk(), list).len(),
{
    lemma_below_shrinks(list);
    let first = returned_at(list[0]);
    let kids = below(list[0]);
    let rest = kids + list.drop_first();
    if j > 0 {
        assert(rest[kids.len() + j - 1] == list[j]);
        let k = lemma_returned(rest, chain, kids.len() + j - 1, value);
        first.len() + k
    } else if chain.len() == 1 {
        lemma_handed_back(list[0], value);
        choose|k: int| 0 <= k < first.len() && *#[trigger] first[k] == value
    } else {
        let i: int = 0;
        let next = chain.drop_first();
        assert(visit_kids(return_walk(), chain[i]).contains(chain[i + 1]));
        assert(looks_inside(chain[i]));
        let at = choose|at: int| 0 <= at < kids.len() && kids[at] == chain[1];
        assert(rest[at] == next[0]);
        assert(nested(next)) by {
            assert forall|i: int|
                #![trigger next[i]]
                0 <= i < next.len() - 1 implies looks_inside(next[i]) && visit_kids(
                return_walk(),
                next[i],
            ).contains(next[i + 1]) by {
                assert(next[i] == chain[i + 1] && next[i + 1] == chain[i + 1 + 1]);
            }
        }
        let k = lemma_returned(rest, next, at, value);
        first.len() + k
    }
}

/// Every value that a function hands back, however deep it stands in the body, is among the
/// values that decide its effect.
pub proof fn law_every_returned_value_counts<'a>(
    function: &'a Expr,
    chain: Seq<Visit<'a>>,
    value: Expr,
)
    requires
        *function is FuncLit,
        chain.len() > 0,
        *function matches Expr::FuncLit { body, .. } && body_visits(None, &*body).contains(
            chain[0],
        ),
        nested(chain),
        hands_back(chain[chain.len() - 1], value),
    ensures
        exists|k: int|
            0 <= k < return_values(function)->Ok_0.len() && *#[trigger] return_values(
                function,
            )->Ok_0[k] == value,
{
    if let Expr::FuncLit { body, .. } = *function {
        let list = body_visits(None, &*body);
        let j = choose|j: int| 0 <= j < list.len() && list[j] == chain[0];
        let k = lemma_returned(list, chain, j, value);
        assert(*return_values(function)->Ok_0[k] == value);
    }
}

} // verus!
