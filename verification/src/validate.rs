//! The references between the nodes of a program: every name, field, method and plan that a
//! node records stands for something that the program declares.

use crate::deep_clone::{DeepPlanView, deep_clone_of, deep_clone_plan_with};
use crate::ids::IdSet;
use crate::model::{
    Binding, BindingOwner, BuiltinCall, CallArg, CallTarget, Capture, CheckedProgram, DeepClonePlan,
    Expr, Item, MatchArm, MethodTarget, Param, Place, ResolvedConversion, Stmt, StructDef,
    StructField, place_root,
};
use crate::shallow_clone::{ShallowPlanView, shallow_clone_of, shallow_clone_root_plan_with};
use crate::structs::{StructTable, items_map, struct_fields};
use crate::typed_contract::rule;
use crate::types::{
    AliasResult, BindingId, ErrorView, MethodId, Span, Ty, TyView, binding_text, broken_at,
    broken_invariant, fault_of, first_fault, fits, lemma_first_fault_at, lemma_no_fault, no_span,
    ty_name, types_match, with_binding,
};
use crate::visit::{Node, Visit, Walk, body_nodes, program_nodes, program_walk, walk_body};
use vstd::prelude::*;

verus! {

pub open spec fn param_declares(params: Seq<Param>, id: BindingId) -> bool {
    exists|i: int| 0 <= i < params.len() && (#[trigger] params[i]).binding_id == id
}

pub open spec fn arm_declares(arms: Seq<MatchArm>, id: BindingId) -> bool {
    exists|i: int| 0 <= i < arms.len() && (#[trigger] arms[i]).binding_id == Some(id)
}

/// The variables that a statement or a match brings in.
pub open spec fn declares_local<'a>(visit: Visit<'a>, id: BindingId) -> bool {
    match visit.node {
        Node::Stmt(Stmt::Binding(binding)) => binding.binding_id == id,
        Node::Stmt(Stmt::For { binding_id, .. }) => *binding_id == id,
        Node::Expr(Expr::Match { arms, .. }, _) => arm_declares(arms@, id),
        _ => false,
    }
}

/// The variables that a function brings in for its own body.
pub open spec fn declares_entry(expr: Expr, id: BindingId) -> bool {
    match expr {
        Expr::FuncLit { params, implicit_bindings, .. } => param_declares(params@, id)
            || implicit_bindings@.contains(id),
        _ => false,
    }
}

/// The variables that a node brings in.
pub open spec fn declares<'a>(visit: Visit<'a>, id: BindingId) -> bool {
    match visit.node {
        Node::Item(Item::Binding(binding)) => binding.binding_id == id || (
        binding.owner matches BindingOwner::Method { self_id, .. } && self_id == id),
        Node::Expr(expr, _) => declares_entry(*expr, id) || declares_local(visit, id),
        _ => declares_local(visit, id),
    }
}

pub open spec fn reference_walk() -> Walk {
    Walk { every_callee: false, into_functions: true, value_first: false, subject_last: false }
}

pub open spec fn body_walk() -> Walk {
    Walk { every_callee: false, into_functions: false, value_first: false, subject_last: false }
}

/// The variables that one of these nodes brings in.
pub open spec fn declared_in<'a>(nodes: Seq<Visit<'a>>, id: BindingId) -> bool {
    exists|i: int| 0 <= i < nodes.len() && declares(#[trigger] nodes[i], id)
}

/// The variables that a program declares anywhere.
pub open spec fn declared(program: &CheckedProgram, id: BindingId) -> bool {
    declared_in(program_walk(reference_walk(), program), id)
}

/// The variables that belong to a function itself, not to a function nested in it.
pub open spec fn own_local(expr: Expr, id: BindingId) -> bool {
    match expr {
        Expr::FuncLit { body, .. } => {
            ||| declares_entry(expr, id)
            ||| exists|i: int|
                0 <= i < walk_body(body_walk(), None, &body).len() && declares_local(
                    #[trigger] walk_body(body_walk(), None, &body)[i],
                    id,
                )
        },
        _ => false,
    }
}

/// The top-level variables; methods are not variables.
pub open spec fn is_global(items: Seq<Item>, id: BindingId) -> bool {
    exists|i: int|
        0 <= i < items.len() && (#[trigger] items[i] matches Item::Binding(binding)
            && !(binding.owner is Method) && binding.binding_id == id)
}

pub open spec fn is_method(items: Seq<Item>, id: MethodId) -> bool {
    exists|i: int|
        0 <= i < items.len() && (#[trigger] items[i] matches Item::Binding(binding)
            && binding.owner matches BindingOwner::Method { method_id, .. } && method_id == id)
}

/// The declaration of a struct; a later one replaces an earlier one.
pub open spec fn struct_named(items: Seq<Item>, name: Seq<char>) -> Option<StructDef>
    decreases items.len(),
{
    if items.len() == 0 {
        None
    } else {
        match items.last() {
            Item::StructDef(def) if def.name@ == name => Some(def),
            _ => struct_named(items.drop_last(), name),
        }
    }
}

/// What is wrong with one captured variable.
pub open spec fn capture_fault(
    program: &CheckedProgram,
    expr: Expr,
    captures: Seq<Capture>,
    i: int,
) -> Option<ErrorView> {
    let id = captures[i].binding_id;
    let span = expr.spec_span();
    if exists|j: int| 0 <= j < i && (#[trigger] captures[j]).binding_id == id {
        Some(broken_at(span, "capture 重复 "@ + binding_text(id) + ""@))
    } else if !declared(program, id) {
        Some(broken_at(span, "capture 引用未知 BindingId "@ + binding_text(id) + ""@))
    } else if is_global(program.items@, id) {
        Some(broken_at(span, "全局 BindingId "@ + binding_text(id) + " 不应进入 capture"@))
    } else if own_local(expr, id) {
        Some(broken_at(span, "函数自身 local "@ + binding_text(id) + " 不应进入 capture"@))
    } else {
        None
    }
}

pub open spec fn capture_faults(
    program: &CheckedProgram,
    expr: Expr,
    captures: Seq<Capture>,
) -> Seq<Option<ErrorView>> {
    Seq::new(captures.len(), |i: int| capture_fault(program, expr, captures, i))
}

pub open spec fn entry_ids(params: Seq<Param>, implicit: Seq<BindingId>) -> Seq<BindingId> {
    params.map_values(|param: Param| param.binding_id) + implicit
}

pub open spec fn entry_faults(ids: Seq<BindingId>, span: Span) -> Seq<Option<ErrorView>> {
    Seq::new(
        ids.len(),
        |i: int|
            rule(
                !(exists|j: int| 0 <= j < i && #[trigger] ids[j] == ids[i]),
                span,
                "函数入口 BindingId 重复 "@ + binding_text(ids[i]) + ""@,
            ),
    )
}

/// What is wrong with one argument of a struct constructor.
pub open spec fn constructor_fault(
    fields: Seq<StructField>,
    args: Seq<CallArg>,
    indices: Seq<usize>,
    i: int,
    span: Span,
) -> Option<ErrorView> {
    if indices[i] >= fields.len() || exists|j: int| 0 <= j < i && #[trigger] indices[j]
        == indices[i] {
        Some(broken_at(span, "构造器字段索引越界或重复"@))
    } else {
        rule(
            fits(fields[indices[i] as int].ty@, args[i].value.tyv()),
            args[i].value.spec_span(),
            "构造器实参类型与已解析字段类型不一致"@,
        )
    }
}

pub open spec fn constructor_faults(
    fields: Seq<StructField>,
    args: Seq<CallArg>,
    indices: Seq<usize>,
    span: Span,
) -> Seq<Option<ErrorView>> {
    Seq::new(args.len(), |i: int| constructor_fault(fields, args, indices, i, span))
}

/// Every field is given or has a default.
pub open spec fn all_given(fields: Seq<StructField>, indices: Seq<usize>) -> bool {
    forall|f: int|
        0 <= f < fields.len() ==> (#[trigger] fields[f]).default is Some || exists|i: int|
            0 <= i < indices.len() && #[trigger] indices[i] == f
}

/// What is wrong with a call of a struct constructor.
pub open spec fn construct_fault(
    program: &CheckedProgram,
    name: Seq<char>,
    args: Seq<CallArg>,
    indices: Seq<usize>,
    span: Span,
) -> Option<ErrorView> {
    if indices.len() != args.len() {
        Some(broken_at(span, "构造器实参与字段索引数量不一致"@))
    } else {
        match struct_named(program.items@, name) {
            None => Some(broken_at(span, "结构体构造 target 引用未知结构体"@)),
            Some(def) => match first_fault(constructor_faults(def.fields@, args, indices, span)) {
                Some(error) => Some(error),
                None => rule(
                    all_given(def.fields@, indices),
                    span,
                    "结构体构造 target 遗漏无默认值字段"@,
                ),
            },
        }
    }
}

/// What is wrong with a recorded deep-clone plan.
pub open spec fn deep_plan_fault(
    expected: Result<DeepPlanView, ErrorView>,
    recorded: DeepPlanView,
    span: Span,
    msg: Seq<char>,
) -> Option<ErrorView> {
    match expected {
        Err(error) => Some(error),
        Ok(plan) => rule(recorded == plan, span, msg),
    }
}

pub open spec fn shallow_plan_fault(
    expected: Result<ShallowPlanView, ErrorView>,
    recorded: ShallowPlanView,
    span: Span,
) -> Option<ErrorView> {
    match expected {
        Err(error) => Some(error),
        Ok(plan) => rule(
            recorded == plan,
            span,
            "ShallowClone plan 与 resolved 静态类型不一致"@,
        ),
    }
}

/// What is wrong with a call.
pub open spec fn call_fault(
    program: &CheckedProgram,
    expr: Expr,
    callee: Expr,
    args: Seq<CallArg>,
    target: CallTarget,
) -> Option<ErrorView> {
    let span = expr.spec_span();
    let table = items_map(program.items@);
    match target {
        CallTarget::FunctionValue => rule(
            !(callee matches Expr::Ident(_, None, _, _)),
            callee.spec_span(),
            "函数值 callee 缺少 BindingId"@,
        ),
        _ => if !(callee is Ident) {
            Some(
                broken_at(callee.spec_span(), "builtin/constructor callee 非直接名字"@),
            )
        } else {
            match target {
                CallTarget::StructConstructor { name, arg_field_indices } => construct_fault(
                    program,
                    name@,
                    args,
                    arg_field_indices@,
                    span,
                ),
                CallTarget::Builtin(BuiltinCall::DeepClone(plan)) => deep_plan_fault(
                    deep_clone_of(expr.tyv(), span, table),
                    plan@,
                    span,
                    "DeepClone plan 与 resolved 静态类型不一致"@,
                ),
                CallTarget::Builtin(BuiltinCall::ShallowClone(plan)) => shallow_plan_fault(
                    shallow_clone_of(expr.tyv(), span, table),
                    plan@,
                    span,
                ),
                _ => None,
            }
        },
    }
}

/// What is wrong with a field access.
pub open spec fn field_fault(
    program: &CheckedProgram,
    expr: Expr,
    recv: Expr,
    field_index: usize,
) -> Option<ErrorView> {
    let span = expr.spec_span();
    match recv.tyv() {
        TyView::Struct(name) => match struct_named(program.items@, name) {
            None => Some(broken_at(span, "字段接收者引用未知结构体"@)),
            Some(def) => if field_index >= def.fields@.len() {
                Some(broken_at(span, "字段索引越界"@))
            } else {
                rule(
                    fits(def.fields@[field_index as int].ty@, expr.tyv()),
                    span,
                    "字段表达式类型与已解析字段声明不一致"@,
                )
            },
        },
        _ => Some(broken_at(span, "字段接收者不是 struct"@)),
    }
}

pub open spec fn arm_faults(program: &CheckedProgram, arms: Seq<MatchArm>) -> Seq<
    Option<ErrorView>,
> {
    arms.reverse().map_values(
        |arm: MatchArm|
            match arm.binding_id {
                Some(id) => rule(
                    declared(program, id),
                    arm.pattern.spec_span(),
                    "Pattern 引用未知 BindingId "@ + binding_text(id) + ""@,
                ),
                None => None,
            },
    )
}

/// What is wrong with the references of one expression.
pub open spec fn expr_fault(program: &CheckedProgram, expr: Expr) -> Option<ErrorView> {
    let span = expr.spec_span();
    let table = items_map(program.items@);
    if expr.tyv().contains_unknown() {
        Some(broken_at(span, "HIR 仍含未确定类型 "@ + ty_name(expr.tyv())))
    } else {
        match expr {
            Expr::Ident(name, id, _, _) => match id {
                Some(id) => rule(
                    declared(program, id),
                    span,
                    "Ident 引用未知 BindingId "@ + binding_text(id) + ""@,
                ),
                None => Some(
                    broken_at(span, "可求值标识符 '"@ + name@ + "' 缺少 BindingId"@),
                ),
            },
            Expr::Typeof { named, .. } => rule(
                expr.tyv() is Str && named@.len() > 0,
                span,
                "typeof 未固化 string 类型名"@,
            ),
            Expr::Convert { expr: inner, mode, .. } => rule(
                mode is Identity ==> inner.tyv() == expr.tyv(),
                span,
                "Identity 转换改变了静态类型"@,
            ),
            Expr::Call { callee, args, target, .. } => call_fault(
                program,
                expr,
                *callee,
                args@,
                target,
            ),
            Expr::MethodCall { target, .. } => match target {
                MethodTarget::User { id, .. } => rule(
                    is_method(program.items@, id),
                    span,
                    "用户方法调用引用未知 MethodId"@,
                ),
                _ => None,
            },
            Expr::Field { recv, field_index, .. } => field_fault(
                program,
                expr,
                *recv,
                field_index,
            ),
            Expr::FuncLit { params, implicit_bindings, captures, .. } => match first_fault(
                capture_faults(program, expr, captures@),
            ) {
                Some(error) => Some(error),
                None => first_fault(entry_faults(entry_ids(params@, implicit_bindings@), span)),
            },
            Expr::Match { arms, .. } => first_fault(arm_faults(program, arms@)),
            Expr::ReadPlace { source, plan, .. } => deep_plan_fault(
                deep_clone_of(source.spec_info().ty@, span, table),
                plan@,
                span,
                "ReadPlace DeepClone plan 与 resolved Place 类型不一致"@,
            ),
            _ => None,
        }
    }
}

/// What is wrong with the references of one statement.
pub open spec fn stmt_fault(program: &CheckedProgram, stmt: Stmt) -> Option<ErrorView> {
    match stmt {
        Stmt::Assign { target, value, .. } => rule(
            declared(program, place_root(target)),
            value.spec_span(),
            "Assign 引用未知 BindingId "@ + binding_text(place_root(target)) + ""@,
        ),
        Stmt::For { binding_id, ty, span, .. } => rule(
            declared(program, binding_id) && !ty@.contains_unknown(),
            span,
            "for BindingId/类型未解析"@,
        ),
        _ => None,
    }
}

pub open spec fn visit_fault<'a>(program: &CheckedProgram, visit: Visit<'a>) -> Option<ErrorView> {
    match visit.node {
        Node::Expr(expr, _) => expr_fault(program, *expr),
        Node::Stmt(stmt) => stmt_fault(program, *stmt),
        _ => None,
    }
}

pub open spec fn field_type_faults(fields: Seq<StructField>) -> Seq<Option<ErrorView>> {
    fields.reverse().map_values(
        |field: StructField|
            rule(!field.ty@.contains_unknown(), field.span, "字段类型未确定"@),
    )
}

pub open spec fn item_faults(items: Seq<Item>) -> Seq<Option<ErrorView>> {
    items.reverse().map_values(
        |item: Item|
            match item {
                Item::StructDef(def) => first_fault(field_type_faults(def.fields@)),
                Item::Binding(_) => None,
            },
    )
}

pub open spec fn node_faults<'a>(program: &'a CheckedProgram) -> Seq<Option<ErrorView>> {
    program_walk(reference_walk(), program).map_values(|visit: Visit<'a>| visit_fault(program, visit))
}

/// What is wrong with the references of a program: first the entry point, then the declared
/// field types from the last to the first, then every node in the order of the walk.
pub open spec fn program_fault(program: &CheckedProgram) -> Option<ErrorView> {
    if !declared(program, program.main_id) {
        Some(broken_at(no_span(), "main BindingId 不存在"@))
    } else {
        match first_fault(item_faults(program.items@)) {
            Some(error) => Some(error),
            None => first_fault(node_faults(program)),
        }
    }
}

/// What the checks of one program look things up in.
pub struct References {
    pub known: IdSet,
    pub globals: IdSet,
    pub structs: StructTable,
}

pub open spec fn references_hold(references: &References, program: &CheckedProgram) -> bool {
    &&& forall|id: BindingId| #[trigger] references.known@.contains(id) <==> declared(program, id)
    &&& forall|id: BindingId| #[trigger]
        references.globals@.contains(id) <==> is_global(program.items@, id)
    &&& references.structs@ == items_map(program.items@)
}

fn add_arms(ids: &mut IdSet, arms: &Vec<MatchArm>)
    ensures
        forall|id: BindingId| #[trigger]
            final(ids)@.contains(id) <==> old(ids)@.contains(id) || arm_declares(arms@, id),
{
    let mut i: usize = 0;
    while i < arms.len()
        invariant
            i <= arms.len(),
            forall|id: BindingId| #[trigger]
                ids@.contains(id) <==> old(ids)@.contains(id) || arm_declares(
                    arms@.subrange(0, i as int),
                    id,
                ),
        decreases arms.len() - i,
    {
        if let Some(id) = arms[i].binding_id {
            let _ = ids.insert(id);
        }
        proof {
            assert forall|id: BindingId| arm_declares(arms@.subrange(0, i + 1), id) <==> (
            arm_declares(arms@.subrange(0, i as int), id) || arms@[i as int].binding_id == Some(
                id,
            )) by {
                let short = arms@.subrange(0, i as int);
                let long = arms@.subrange(0, i + 1);
                if arm_declares(long, id) {
                    let k = choose|k: int|
                        0 <= k < long.len() && (#[trigger] long[k]).binding_id == Some(id);
                    if k < i {
                        assert(short[k].binding_id == Some(id));
                    }
                }
                if arm_declares(short, id) {
                    let k = choose|k: int|
                        0 <= k < short.len() && (#[trigger] short[k]).binding_id == Some(id);
                    assert(long[k].binding_id == Some(id));
                }
                assert(long[i as int] == arms@[i as int]);
            }
        }
        i += 1;
    }
    assert(arms@.subrange(0, i as int) =~= arms@);
}

fn add_params(ids: &mut IdSet, params: &Vec<Param>)
    ensures
        forall|id: BindingId| #[trigger]
            final(ids)@.contains(id) <==> old(ids)@.contains(id) || param_declares(params@, id),
{
    let mut i: usize = 0;
    while i < params.len()
        invariant
            i <= params.len(),
            forall|id: BindingId| #[trigger]
                ids@.contains(id) <==> old(ids)@.contains(id) || param_declares(
                    params@.subrange(0, i as int),
                    id,
                ),
        decreases params.len() - i,
    {
        let _ = ids.insert(params[i].binding_id);
        proof {
            assert forall|id: BindingId| param_declares(params@.subrange(0, i + 1), id) <==> (
            param_declares(params@.subrange(0, i as int), id) || params@[i as int].binding_id
                == id) by {
                let short = params@.subrange(0, i as int);
                let long = params@.subrange(0, i + 1);
                if param_declares(long, id) {
                    let k = choose|k: int|
                        0 <= k < long.len() && (#[trigger] long[k]).binding_id == id;
                    if k < i {
                        assert(short[k].binding_id == id);
                    }
                }
                if param_declares(short, id) {
                    let k = choose|k: int|
                        0 <= k < short.len() && (#[trigger] short[k]).binding_id == id;
                    assert(long[k].binding_id == id);
                }
                assert(long[i as int] == params@[i as int]);
            }
        }
        i += 1;
    }
    assert(params@.subrange(0, i as int) =~= params@);
}

fn add_all(ids: &mut IdSet, list: &Vec<BindingId>)
    ensures
        forall|id: BindingId| #[trigger]
            final(ids)@.contains(id) <==> old(ids)@.contains(id) || list@.contains(id),
{
    let mut i: usize = 0;
    while i < list.len()
        invariant
            i <= list.len(),
            forall|id: BindingId| #[trigger]
                ids@.contains(id) <==> old(ids)@.contains(id) || list@.subrange(
                    0,
                    i as int,
                ).contains(id),
        decreases list.len() - i,
    {
        let _ = ids.insert(list[i]);
        proof {
            let short = list@.subrange(0, i as int);
            let long = list@.subrange(0, i + 1);
            assert(long =~= short.push(list@[i as int]));
            assert forall|id: BindingId| long.contains(id) <==> (short.contains(id) || list@[i as int]
                == id) by {
                if long.contains(id) {
                    let k = choose|k: int| 0 <= k < long.len() && long[k] == id;
                    if k < i {
                        assert(short[k] == id);
                    }
                }
                if short.contains(id) {
                    let k = choose|k: int| 0 <= k < short.len() && short[k] == id;
                    assert(long[k] == id);
                }
                assert(long[i as int] == list@[i as int]);
            }
        }
        i += 1;
    }
    assert(list@.subrange(0, i as int) =~= list@);
}

fn add_local<'a>(ids: &mut IdSet, visit: Visit<'a>)
    ensures
        forall|id: BindingId| #[trigger]
            final(ids)@.contains(id) <==> old(ids)@.contains(id) || declares_local(visit, id),
{
    match visit.node {
        Node::Stmt(Stmt::Binding(binding)) => {
            let _ = ids.insert(binding.binding_id);
        },
        Node::Stmt(Stmt::For { binding_id, .. }) => {
            let _ = ids.insert(*binding_id);
        },
        Node::Expr(Expr::Match { arms, .. }, _) => add_arms(ids, arms),
        _ => {},
    }
}

fn add_entry(ids: &mut IdSet, expr: &Expr)
    ensures
        forall|id: BindingId| #[trigger]
            final(ids)@.contains(id) <==> old(ids)@.contains(id) || declares_entry(*expr, id),
{
    if let Expr::FuncLit { params, implicit_bindings, .. } = expr {
        add_params(ids, params);
        add_all(ids, implicit_bindings);
    }
}

fn add_declared<'a>(ids: &mut IdSet, visit: Visit<'a>)
    ensures
        forall|id: BindingId| #[trigger]
            final(ids)@.contains(id) <==> old(ids)@.contains(id) || declares(visit, id),
{
    match visit.node {
        Node::Item(Item::Binding(binding)) => {
            let _ = ids.insert(binding.binding_id);
            if let BindingOwner::Method { self_id, .. } = &binding.owner {
                let _ = ids.insert(*self_id);
            }
        },
        Node::Expr(expr, _) => {
            add_entry(ids, expr);
            add_local(ids, visit);
        },
        _ => add_local(ids, visit),
    }
}

/// The variables that a program declares anywhere.
pub fn collect_declared_ids(program: &CheckedProgram) -> (r: IdSet)
    ensures
        forall|id: BindingId| #[trigger] r@.contains(id) <==> declared(program, id),
{
    let nodes = program_nodes(
        Walk { every_callee: false, into_functions: true, value_first: false, subject_last: false },
        program,
    );
    let mut ids = IdSet::new();
    let mut i: usize = 0;
    while i < nodes.len()
        invariant
            i <= nodes.len(),
            nodes@ == program_walk(reference_walk(), program),
            forall|id: BindingId| #[trigger]
                ids@.contains(id) <==> exists|k: int|
                    0 <= k < i && declares(#[trigger] nodes@[k], id),
        decreases nodes.len() - i,
    {
        let ghost before = ids@;
        add_declared(&mut ids, nodes[i]);
        proof {
            assert forall|id: BindingId| #[trigger] ids@.contains(id) <==> exists|k: int|
                0 <= k < i + 1 && declares(#[trigger] nodes@[k], id) by {
                if before.contains(id) {
                    let k = choose|k: int| 0 <= k < i && declares(#[trigger] nodes@[k], id);
                    assert(declares(nodes@[k], id));
                }
                if declares(nodes@[i as int], id) {
                    assert(0 <= i < i + 1 && declares(nodes@[i as int], id));
                }
            }
        }
        i += 1;
    }
    ids
}

/// The variables that belong to a function itself, not to a function nested in it.
pub fn collect_function_locals(expr: &Expr) -> (r: IdSet)
    ensures
        forall|id: BindingId| #[trigger] r@.contains(id) <==> own_local(*expr, id),
{
    let mut ids = IdSet::new();
    if let Expr::FuncLit { body, .. } = expr {
        add_entry(&mut ids, expr);
        let nodes = body_nodes(
            Walk {
                every_callee: false,
                into_functions: false,
                value_first: false,
                subject_last: false,
            },
            None,
            body,
        );
        let mut i: usize = 0;
        while i < nodes.len()
            invariant
                i <= nodes.len(),
                nodes@ == walk_body(body_walk(), None, &**body),
                forall|id: BindingId| #[trigger]
                    ids@.contains(id) <==> declares_entry(*expr, id) || exists|k: int|
                        0 <= k < i && declares_local(#[trigger] nodes@[k], id),
            decreases nodes.len() - i,
        {
            let ghost before = ids@;
            add_local(&mut ids, nodes[i]);
            proof {
                assert forall|id: BindingId| #[trigger] ids@.contains(id) <==> declares_entry(
                    *expr,
                    id,
                ) || exists|k: int|
                    0 <= k < i + 1 && declares_local(#[trigger] nodes@[k], id) by {
                    if before.contains(id) && !declares_entry(*expr, id) {
                        let k = choose|k: int|
                            0 <= k < i && declares_local(#[trigger] nodes@[k], id);
                        assert(declares_local(nodes@[k], id));
                    }
                    if declares_local(nodes@[i as int], id) {
                        assert(0 <= i < i + 1 && declares_local(nodes@[i as int], id));
                    }
                }
            }
            i += 1;
        }
    }
    ids
}

fn collect_globals(items: &Vec<Item>) -> (r: IdSet)
    ensures
        forall|id: BindingId| #[trigger] r@.contains(id) <==> is_global(items@, id),
{
    let mut ids = IdSet::new();
    let mut i: usize = 0;
    while i < items.len()
        invariant
            i <= items.len(),
            forall|id: BindingId| #[trigger]
                ids@.contains(id) <==> is_global(items@.subrange(0, i as int), id),
        decreases items.len() - i,
    {
        if let Item::Binding(binding) = &items[i] {
            if !binding.is_method() {
                let _ = ids.insert(binding.binding_id);
            }
        }
        proof {
            let short = items@.subrange(0, i as int);
            let long = items@.subrange(0, i + 1);
            assert(long =~= short.push(items@[i as int]));
            assert forall|id: BindingId| is_global(long, id) <==> (is_global(short, id) || (
            items@[i as int] matches Item::Binding(binding) && !(binding.owner is Method)
                && binding.binding_id == id)) by {
                if is_global(long, id) {
                    let k = choose|k: int|
                        0 <= k < long.len() && (#[trigger] long[k] matches Item::Binding(binding)
                            && !(binding.owner is Method) && binding.binding_id == id);
                    if k < i {
                        assert(short[k] == long[k]);
                    }
                }
                if is_global(short, id) {
                    let k = choose|k: int|
                        0 <= k < short.len() && (#[trigger] short[k] matches Item::Binding(binding)
                            && !(binding.owner is Method) && binding.binding_id == id);
                    assert(long[k] == short[k]);
                }
                assert(long[i as int] == items@[i as int]);
            }
        }
        i += 1;
    }
    assert(items@.subrange(0, i as int) =~= items@);
    ids
}

fn has_method(items: &Vec<Item>, id: MethodId) -> (r: bool)
    ensures
        r == is_method(items@, id),
{
    let mut i: usize = 0;
    while i < items.len()
        invariant
            i <= items.len(),
            forall|k: int|
                0 <= k < i ==> !(#[trigger] items@[k] matches Item::Binding(binding)
                    && binding.owner matches BindingOwner::Method { method_id, .. } && method_id
                    == id),
        decreases items.len() - i,
    {
        if let Item::Binding(binding) = &items[i] {
            if let BindingOwner::Method { method_id, .. } = &binding.owner {
                if *method_id == id {
                    assert(items@[i as int] matches Item::Binding(binding)
                        && binding.owner matches BindingOwner::Method { method_id, .. }
                        && method_id == id);
                    return true;
                }
            }
        }
        i += 1;
    }
    false
}

fn find_struct<'a>(items: &'a Vec<Item>, name: &String) -> (r: Option<&'a StructDef>)
    ensures
        match struct_named(items@, name@) {
            Some(def) => r is Some && *r.unwrap() == def,
            None => r is None,
        },
{
    let mut left: usize = items.len();
    assert(items@.subrange(0, left as int) =~= items@);
    while left > 0
        invariant
            left <= items.len(),
            struct_named(items@, name@) == struct_named(items@.subrange(0, left as int), name@),
        decreases left,
    {
        let ghost prefix = items@.subrange(0, left as int);
        left -= 1;
        assert(prefix.drop_last() =~= items@.subrange(0, left as int));
        assert(prefix.last() == items@[left as int]);
        if let Item::StructDef(def) = &items[left] {
            if def.name == *name {
                return Some(def);
            }
        }
    }
    None
}

fn check_captures(
    program: &CheckedProgram,
    references: &References,
    expr: &Expr,
    captures: &Vec<Capture>,
) -> (r: AliasResult<()>)
    requires
        references_hold(references, program),
    ensures
        fault_of(r) == first_fault(capture_faults(program, *expr, captures@)),
{
    let locals = collect_function_locals(expr);
    let ghost faults = capture_faults(program, *expr, captures@);
    let span = expr.span();
    let mut seen = IdSet::new();
    let mut i: usize = 0;
    while i < captures.len()
        invariant
            i <= captures.len(),
            references_hold(references, program),
            faults == capture_faults(program, *expr, captures@),
            span == expr.spec_span(),
            forall|id: BindingId| #[trigger] locals@.contains(id) <==> own_local(*expr, id),
            forall|id: BindingId| #[trigger]
                seen@.contains(id) <==> exists|j: int|
                    0 <= j < i && (#[trigger] captures@[j]).binding_id == id,
            forall|k: int| 0 <= k < i ==> (#[trigger] faults[k]) is None,
        decreases captures.len() - i,
    {
        let id = captures[i].binding_id;
        let fresh = seen.insert(id);
        assert(faults[i as int] == capture_fault(program, *expr, captures@, i as int));
        let detail = if !fresh {
            Some(with_binding("capture 重复 ", id, ""))
        } else if !references.known.contains(id) {
            Some(with_binding("capture 引用未知 BindingId ", id, ""))
        } else if references.globals.contains(id) {
            Some(with_binding("全局 BindingId ", id, " 不应进入 capture"))
        } else if locals.contains(id) {
            Some(with_binding("函数自身 local ", id, " 不应进入 capture"))
        } else {
            None
        };
        if let Some(text) = detail {
            proof {
                lemma_first_fault_at(faults, i as int);
            }
            return Err(broken_invariant(span, text.as_str()));
        }
        proof {
            assert forall|other: BindingId| #[trigger] seen@.contains(other) <==> exists|j: int|
                0 <= j < i + 1 && (#[trigger] captures@[j]).binding_id == other by {
                if exists|j: int| 0 <= j < i && (#[trigger] captures@[j]).binding_id == other {
                    let j = choose|j: int|
                        0 <= j < i && (#[trigger] captures@[j]).binding_id == other;
                    assert(captures@[j].binding_id == other);
                }
                assert(captures@[i as int].binding_id == id);
            }
        }
        i += 1;
    }
    proof {
        lemma_no_fault(faults);
    }
    Ok(())
}

fn check_entry(
    params: &Vec<Param>,
    implicit_bindings: &Vec<BindingId>,
    span: Span,
) -> (r: AliasResult<()>)
    ensures
        fault_of(r) == first_fault(entry_faults(entry_ids(params@, implicit_bindings@), span)),
{
    let mut ids: Vec<BindingId> = Vec::new();
    let mut p: usize = 0;
    while p < params.len()
        invariant
            p <= params.len(),
            ids@ == entry_ids(params@, implicit_bindings@).subrange(0, p as int),
        decreases params.len() - p,
    {
        ids.push(params[p].binding_id);
        p += 1;
        assert(ids@ =~= entry_ids(params@, implicit_bindings@).subrange(0, p as int));
    }
    let mut q: usize = 0;
    while q < implicit_bindings.len()
        invariant
            q <= implicit_bindings.len(),
            ids@ == entry_ids(params@, implicit_bindings@).subrange(0, params@.len() + q),
        decreases implicit_bindings.len() - q,
    {
        ids.push(implicit_bindings[q]);
        q += 1;
        assert(ids@ =~= entry_ids(params@, implicit_bindings@).subrange(0, params@.len() + q));
    }
    assert(ids@ =~= entry_ids(params@, implicit_bindings@));
    let ghost faults = entry_faults(ids@, span);
    let mut seen = IdSet::new();
    let mut i: usize = 0;
    while i < ids.len()
        invariant
            i <= ids.len(),
            ids@ == entry_ids(params@, implicit_bindings@),
            faults == entry_faults(ids@, span),
            forall|id: BindingId| #[trigger]
                seen@.contains(id) <==> exists|j: int| 0 <= j < i && #[trigger] ids@[j] == id,
            forall|k: int| 0 <= k < i ==> (#[trigger] faults[k]) is None,
        decreases ids.len() - i,
    {
        let id = ids[i];
        let fresh = seen.insert(id);
        if !fresh {
            let text = with_binding("函数入口 BindingId 重复 ", id, "");
            proof {
                assert(faults[i as int] is Some);
                lemma_first_fault_at(faults, i as int);
            }
            return Err(broken_invariant(span, text.as_str()));
        }
        proof {
            assert(faults[i as int] is None);
            assert forall|other: BindingId| #[trigger] seen@.contains(other) <==> exists|j: int|
                0 <= j < i + 1 && #[trigger] ids@[j] == other by {
                if exists|j: int| 0 <= j < i && #[trigger] ids@[j] == other {
                    let j = choose|j: int| 0 <= j < i && #[trigger] ids@[j] == other;
                    assert(ids@[j] == other);
                }
                assert(ids@[i as int] == id);
            }
        }
        i += 1;
    }
    proof {
        lemma_no_fault(faults);
    }
    Ok(())
}

fn index_given(indices: &Vec<usize>, field: usize, end: usize) -> (r: bool)
    requires
        end <= indices.len(),
    ensures
        r == exists|i: int| 0 <= i < end && #[trigger] indices@[i] == field,
{
    let mut i: usize = 0;
    while i < end
        invariant
            i <= end <= indices.len(),
            forall|k: int| 0 <= k < i ==> #[trigger] indices@[k] != field,
        decreases end - i,
    {
        if indices[i] == field {
            assert(indices@[i as int] == field);
            return true;
        }
        i += 1;
    }
    false
}

fn check_constructor(
    program: &CheckedProgram,
    name: &String,
    args: &Vec<CallArg>,
    indices: &Vec<usize>,
    span: Span,
) -> (r: AliasResult<()>)
    ensures
        fault_of(r) == construct_fault(program, name@, args@, indices@, span),
{
    if indices.len() != args.len() {
        return Err(broken_invariant(span, "构造器实参与字段索引数量不一致"));
    }
    let def = match find_struct(&program.items, name) {
        Some(def) => def,
        None => {
            return Err(broken_invariant(span, "结构体构造 target 引用未知结构体"));
        },
    };
    let ghost faults = constructor_faults(def.fields@, args@, indices@, span);
    let mut i: usize = 0;
    while i < args.len()
        invariant
            i <= args.len(),
            indices.len() == args.len(),
            faults == constructor_faults(def.fields@, args@, indices@, span),
            struct_named(program.items@, name@) == Some(*def),
            forall|k: int| 0 <= k < i ==> (#[trigger] faults[k]) is None,
        decreases args.len() - i,
    {
        assert(faults[i as int] == constructor_fault(
            def.fields@,
            args@,
            indices@,
            i as int,
            span,
        ));
        let field = indices[i];
        if field >= def.fields.len() || index_given(indices, field, i) {
            proof {
                lemma_first_fault_at(faults, i as int);
            }
            return Err(broken_invariant(span, "构造器字段索引越界或重复"));
        }
        if !types_match(&def.fields[field].ty, args[i].value.ty()) {
            proof {
                lemma_first_fault_at(faults, i as int);
            }
            return Err(
                broken_invariant(
                    args[i].value.span(),
                    "构造器实参类型与已解析字段类型不一致",
                ),
            );
        }
        i += 1;
    }
    proof {
        lemma_no_fault(faults);
    }
    let mut f: usize = 0;
    while f < def.fields.len()
        invariant
            f <= def.fields.len(),
            first_fault(faults) is None,
            indices.len() == args.len(),
            faults == constructor_faults(def.fields@, args@, indices@, span),
            struct_named(program.items@, name@) == Some(*def),
            forall|k: int|
                0 <= k < f ==> (#[trigger] def.fields@[k]).default is Some || exists|i: int|
                    0 <= i < indices@.len() && #[trigger] indices@[i] == k,
        decreases def.fields.len() - f,
    {
        if def.fields[f].default.is_none() && !index_given(indices, f, indices.len()) {
            assert(!all_given(def.fields@, indices@)) by {
                assert(def.fields@[f as int].default is None);
            }
            return Err(broken_invariant(span, "结构体构造 target 遗漏无默认值字段"));
        }
        f += 1;
    }
    Ok(())
}

fn check_deep_plan(
    ty: &Ty,
    structs: &StructTable,
    recorded: &DeepClonePlan,
    span: Span,
    msg: &str,
) -> (r: AliasResult<()>)
    ensures
        fault_of(r) == deep_plan_fault(
            deep_clone_of(ty@, span, structs@),
            recorded@,
            span,
            msg@,
        ),
{
    match deep_clone_plan_with(ty, span, structs) {
        Err(error) => Err(error),
        Ok(plan) => if recorded.same(&plan) {
            Ok(())
        } else {
            Err(broken_invariant(span, msg))
        },
    }
}

fn check_call(
    program: &CheckedProgram,
    references: &References,
    expr: &Expr,
    callee: &Expr,
    args: &Vec<CallArg>,
    target: &CallTarget,
) -> (r: AliasResult<()>)
    requires
        references_hold(references, program),
    ensures
        fault_of(r) == call_fault(program, *expr, *callee, args@, *target),
{
    let span = expr.span();
    if matches!(target, CallTarget::FunctionValue) {
        if let Expr::Ident(_, None, _, _) = callee {
            return Err(broken_invariant(callee.span(), "函数值 callee 缺少 BindingId"));
        }
        return Ok(());
    }
    if !matches!(callee, Expr::Ident(..)) {
        return Err(
            broken_invariant(callee.span(), "builtin/constructor callee 非直接名字"),
        );
    }
    match target {
        CallTarget::StructConstructor { name, arg_field_indices } => check_constructor(
            program,
            name,
            args,
            arg_field_indices,
            span,
        ),
        CallTarget::Builtin(BuiltinCall::DeepClone(plan)) => check_deep_plan(
            expr.ty(),
            &references.structs,
            plan,
            span,
            "DeepClone plan 与 resolved 静态类型不一致",
        ),
        CallTarget::Builtin(BuiltinCall::ShallowClone(plan)) => {
            match shallow_clone_root_plan_with(expr.ty(), span, &references.structs) {
                Err(error) => Err(error),
                Ok(expected) => if plan.same(&expected) {
                    Ok(())
                } else {
                    Err(
                        broken_invariant(
                            span,
                            "ShallowClone plan 与 resolved 静态类型不一致",
                        ),
                    )
                },
            }
        },
        _ => Ok(()),
    }
}

fn check_field(
    program: &CheckedProgram,
    expr: &Expr,
    recv: &Expr,
    field_index: usize,
) -> (r: AliasResult<()>)
    ensures
        fault_of(r) == field_fault(program, *expr, *recv, field_index),
{
    let span = expr.span();
    match recv.ty() {
        Ty::Struct(name) => match find_struct(&program.items, name) {
            None => Err(broken_invariant(span, "字段接收者引用未知结构体")),
            Some(def) => {
                if field_index >= def.fields.len() {
                    return Err(broken_invariant(span, "字段索引越界"));
                }
                if !types_match(&def.fields[field_index].ty, expr.ty()) {
                    return Err(
                        broken_invariant(span, "字段表达式类型与已解析字段声明不一致"),
                    );
                }
                Ok(())
            },
        },
        _ => Err(broken_invariant(span, "字段接收者不是 struct")),
    }
}

fn check_arms(
    program: &CheckedProgram,
    references: &References,
    arms: &Vec<MatchArm>,
) -> (r: AliasResult<()>)
    requires
        references_hold(references, program),
    ensures
        fault_of(r) == first_fault(arm_faults(program, arms@)),
{
    let ghost faults = arm_faults(program, arms@);
    let mut left: usize = arms.len();
    while left > 0
        invariant
            left <= arms.len(),
            references_hold(references, program),
            faults == arm_faults(program, arms@),
            forall|k: int| 0 <= k < arms.len() - left ==> (#[trigger] faults[k]) is None,
        decreases left,
    {
        left -= 1;
        let ghost at = arms@.len() - 1 - left;
        assert(arms@.reverse()[at] == arms@[left as int]);
        if let Some(id) = arms[left].binding_id {
            if !references.known.contains(id) {
                let text = with_binding("Pattern 引用未知 BindingId ", id, "");
                proof {
                    lemma_first_fault_at(faults, at);
                }
                return Err(broken_invariant(arms[left].pattern.span(), text.as_str()));
            }
        }
        assert(faults[at] is None);
    }
    proof {
        lemma_no_fault(faults);
    }
    Ok(())
}

fn check_expr(program: &CheckedProgram, references: &References, expr: &Expr) -> (r: AliasResult<
    (),
>)
    requires
        references_hold(references, program),
    ensures
        fault_of(r) == expr_fault(program, *expr),
{
    let span = expr.span();
    if expr.ty().contains_unknown() {
        let mut text: String = String::from_str("HIR 仍含未确定类型 ");
        text.append(expr.ty().name().as_str());
        return Err(broken_invariant(span, text.as_str()));
    }
    match expr {
        Expr::Ident(name, id, _, _) => match id {
            Some(id) => {
                if !references.known.contains(*id) {
                    let text = with_binding("Ident 引用未知 BindingId ", *id, "");
                    return Err(broken_invariant(span, text.as_str()));
                }
                Ok(())
            },
            None => {
                let mut text: String = String::from_str("可求值标识符 '");
                text.append(name.as_str());
                text.append("' 缺少 BindingId");
                Err(broken_invariant(span, text.as_str()))
            },
        },
        Expr::Typeof { named, .. } => {
            if !matches!(expr.ty(), Ty::Str) || named.as_str().is_empty() {
                return Err(broken_invariant(span, "typeof 未固化 string 类型名"));
            }
            Ok(())
        },
        Expr::Convert { expr: inner, mode, .. } => {
            if matches!(mode, ResolvedConversion::Identity) && !inner.ty().same(expr.ty()) {
                return Err(broken_invariant(span, "Identity 转换改变了静态类型"));
            }
            Ok(())
        },
        Expr::Call { callee, args, target, .. } => check_call(
            program,
            references,
            expr,
            callee,
            args,
            target,
        ),
        Expr::MethodCall { target, .. } => match target {
            MethodTarget::User { id, .. } => {
                if !has_method(&program.items, *id) {
                    return Err(broken_invariant(span, "用户方法调用引用未知 MethodId"));
                }
                Ok(())
            },
            _ => Ok(()),
        },
        Expr::Field { recv, field_index, .. } => check_field(program, expr, recv, *field_index),
        Expr::FuncLit { params, implicit_bindings, captures, .. } => {
            match check_captures(program, references, expr, captures) {
                Ok(_) => {},
                Err(error) => {
                    return Err(error);
                },
            }
            check_entry(params, implicit_bindings, span)
        },
        Expr::Match { arms, .. } => check_arms(program, references, arms),
        Expr::ReadPlace { source, plan, .. } => check_deep_plan(
            source.ty(),
            &references.structs,
            plan,
            span,
            "ReadPlace DeepClone plan 与 resolved Place 类型不一致",
        ),
        _ => Ok(()),
    }
}

fn check_stmt(program: &CheckedProgram, references: &References, stmt: &Stmt) -> (r: AliasResult<
    (),
>)
    requires
        references_hold(references, program),
    ensures
        fault_of(r) == stmt_fault(program, *stmt),
{
    match stmt {
        Stmt::Assign { target, value, .. } => {
            let root = target.root_binding_id();
            if !references.known.contains(root) {
                let text = with_binding("Assign 引用未知 BindingId ", root, "");
                return Err(broken_invariant(value.span(), text.as_str()));
            }
            Ok(())
        },
        Stmt::For { binding_id, ty, span, .. } => {
            if !references.known.contains(*binding_id) || ty.contains_unknown() {
                return Err(broken_invariant(*span, "for BindingId/类型未解析"));
            }
            Ok(())
        },
        _ => Ok(()),
    }
}

fn check_fields(fields: &Vec<StructField>) -> (r: AliasResult<()>)
    ensures
        fault_of(r) == first_fault(field_type_faults(fields@)),
{
    let ghost faults = field_type_faults(fields@);
    let mut left: usize = fields.len();
    while left > 0
        invariant
            left <= fields.len(),
            faults == field_type_faults(fields@),
            forall|k: int| 0 <= k < fields.len() - left ==> (#[trigger] faults[k]) is None,
        decreases left,
    {
        left -= 1;
        let ghost at = fields@.len() - 1 - left;
        assert(fields@.reverse()[at] == fields@[left as int]);
        if fields[left].ty.contains_unknown() {
            proof {
                lemma_first_fault_at(faults, at);
            }
            return Err(broken_invariant(fields[left].span, "字段类型未确定"));
        }
        assert(faults[at] is None);
    }
    proof {
        lemma_no_fault(faults);
    }
    Ok(())
}

fn check_items(items: &Vec<Item>) -> (r: AliasResult<()>)
    ensures
        fault_of(r) == first_fault(item_faults(items@)),
{
    let ghost faults = item_faults(items@);
    let mut left: usize = items.len();
    while left > 0
        invariant
            left <= items.len(),
            faults == item_faults(items@),
            forall|k: int| 0 <= k < items.len() - left ==> (#[trigger] faults[k]) is None,
        decreases left,
    {
        left -= 1;
        let ghost at = items@.len() - 1 - left;
        assert(items@.reverse()[at] == items@[left as int]);
        if let Item::StructDef(def) = &items[left] {
            match check_fields(&def.fields) {
                Ok(_) => {},
                Err(error) => {
                    proof {
                        lemma_first_fault_at(faults, at);
                    }
                    return Err(error);
                },
            }
        }
        assert(faults[at] is None);
    }
    proof {
        lemma_no_fault(faults);
    }
    Ok(())
}

/// Checks every reference of a program; reports the first that stands for nothing.
pub fn validate_resolved_hir(program: &CheckedProgram) -> (r: AliasResult<()>)
    ensures
        fault_of(r) == program_fault(program),
{
    let references = References {
        known: collect_declared_ids(program),
        globals: collect_globals(&program.items),
        structs: struct_fields(program),
    };
    if !references.known.contains(program.main_id) {
        return Err(broken_invariant(Span { start: 0, end: 0 }, "main BindingId 不存在"));
    }
    match check_items(&program.items) {
        Ok(_) => {},
        Err(error) => {
            return Err(error);
        },
    }
    let nodes = program_nodes(
        Walk { every_callee: false, into_functions: true, value_first: false, subject_last: false },
        program,
    );
    let ghost faults = node_faults(program);
    let mut i: usize = 0;
    while i < nodes.len()
        invariant
            i <= nodes.len(),
            nodes@ == program_walk(reference_walk(), program),
            references_hold(&references, program),
            program_fault(program) == first_fault(faults),
            faults == node_faults(program),
            forall|k: int| 0 <= k < i ==> (#[trigger] faults[k]) is None,
        decreases nodes.len() - i,
    {
        let checked = match nodes[i].node {
            Node::Expr(expr, _) => check_expr(program, &references, expr),
            Node::Stmt(stmt) => check_stmt(program, &references, stmt),
            _ => Ok(()),
        };
        assert(fault_of(checked) == faults[i as int]);
        match checked {
            Ok(_) => {},
            Err(error) => {
                proof {
                    lemma_first_fault_at(faults, i as int);
                }
                return Err(error);
            },
        }
        i += 1;
    }
    proof {
        lemma_no_fault(faults);
    }
    Ok(())
}

/// In a program that passes, every name in an expression stands for a declared variable.
pub proof fn law_valid_names_are_declared(program: &CheckedProgram, i: int)
    requires
        program_fault(program) is None,
        0 <= i < program_walk(reference_walk(), program).len(),
    ensures
        program_walk(reference_walk(), program)[i].node matches Node::Expr(
            Expr::Ident(_, id, _, _),
            _,
        ) ==> id is Some && declared(program, id.unwrap()),
        declared(program, program.main_id),
{
    lemma_no_fault(node_faults(program));
    assert(node_faults(program)[i] is None);
}

} // verus!
