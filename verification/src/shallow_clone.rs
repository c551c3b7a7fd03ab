//! Which types can be copied without duplicating anything they own, and how.

use crate::deep_clone::{DeepPlanView, deep_fields, deep_plan};
use crate::model::ShallowClonePlan;
use crate::structs::{
    StructTable, lemma_defs_finite, lemma_mark_shrinks, lemma_names_push, names_of, stack_contains,
};
use crate::types::{
    AliasError, AliasResult, ErrorView, Span, Ty, TyView, broken, broken_invariant, error, fault_of,
    quoted, ty_name, ty_views,
};
use vstd::prelude::*;

verus! {

/// The mathematical value of a shallow-clone plan.
pub enum ShallowPlanView {
    Inline,
    Struct { name: Seq<char>, fields: Seq<ShallowPlanView> },
    Result { ok: Box<ShallowPlanView>, err: Box<ShallowPlanView> },
}

pub open spec fn shallow_view(plan: ShallowClonePlan) -> ShallowPlanView
    decreases plan,
{
    match plan {
        ShallowClonePlan::Inline => ShallowPlanView::Inline,
        ShallowClonePlan::Struct { name, fields } => ShallowPlanView::Struct {
            name: name@,
            fields: Seq::new(
                fields@.len(),
                |i: int|
                    if 0 <= i < fields@.len() {
                        shallow_view(fields@[i])
                    } else {
                        ShallowPlanView::Inline
                    },
            ),
        },
        ShallowClonePlan::Result { ok, err } => ShallowPlanView::Result {
            ok: Box::new(shallow_view(*ok)),
            err: Box::new(shallow_view(*err)),
        },
    }
}

impl View for ShallowClonePlan {
    type V = ShallowPlanView;

    open spec fn view(&self) -> ShallowPlanView {
        shallow_view(*self)
    }
}

impl ShallowClonePlan {
    /// Whether two plans are the same.
    pub fn same(&self, other: &ShallowClonePlan) -> (r: bool)
        ensures
            r == (self@ == other@),
        decreases self,
    {
        match (self, other) {
            (ShallowClonePlan::Inline, ShallowClonePlan::Inline) => true,
            (
                ShallowClonePlan::Result { ok: a, err: e },
                ShallowClonePlan::Result { ok: b, err: f },
            ) => a.same(b) && e.same(f),
            (
                ShallowClonePlan::Struct { name: a, fields: p },
                ShallowClonePlan::Struct { name: b, fields: q },
            ) => {
                if p.len() != q.len() {
                    assert(self@->fields.len() != other@->fields.len());
                    return false;
                }
                let mut i: usize = 0;
                while i < p.len()
                    invariant
                        i <= p.len(),
                        p.len() == q.len(),
                        self matches ShallowClonePlan::Struct { fields: sp, .. } && sp == p,
                        other matches ShallowClonePlan::Struct { fields: oq, .. } && oq == q,
                        forall|k: int| 0 <= k < i ==> (#[trigger] p@[k])@ == q@[k]@,
                    decreases p.len() - i,
                {
                    if !p[i].same(&q[i]) {
                        assert(self@->fields[i as int] != other@->fields[i as int]);
                        return false;
                    }
                    i += 1;
                }
                assert(self@->fields =~= other@->fields);
                *a == *b
            },
            _ => false,
        }
    }
}

impl Clone for ShallowClonePlan {
    fn clone(&self) -> (r: ShallowClonePlan)
        ensures
            r@ == self@,
        decreases self,
    {
        match self {
            ShallowClonePlan::Inline => ShallowClonePlan::Inline,
            ShallowClonePlan::Result { ok, err } => ShallowClonePlan::Result {
                ok: Box::new((&**ok).clone()),
                err: Box::new((&**err).clone()),
            },
            ShallowClonePlan::Struct { name, fields } => {
                let mut copied: Vec<ShallowClonePlan> = Vec::new();
                let mut i: usize = 0;
                while i < fields.len()
                    invariant
                        i <= fields.len(),
                        self matches ShallowClonePlan::Struct { fields: f, .. } && f == fields,
                        copied.len() == i,
                        forall|k: int| 0 <= k < i ==> (#[trigger] copied@[k])@ == fields@[k]@,
                    decreases fields.len() - i,
                {
                    copied.push(fields[i].clone());
                    i += 1;
                }
                let r = ShallowClonePlan::Struct { name: name.clone(), fields: copied };
                assert(r@->fields =~= self@->fields);
                r
            },
        }
    }
}

pub open spec fn recursive_struct(name: Seq<char>) -> Seq<char> {
    broken("ShallowCloneable 结构体依赖出现递归 '"@ + name + "'"@)
}

pub open spec fn unknown_struct(name: Seq<char>) -> Seq<char> {
    broken("shallow 引用未知结构体 '"@ + name + "'"@)
}

/// The plan for a settled type, given the structs that are being expanded around it. Scalars
/// are copied inline, structs and results part by part. Text, arrays, functions and iterators
/// own something that a copy would share, so they have no plan.
pub open spec fn shallow_plan(
    ty: TyView,
    span: Span,
    table: Map<Seq<char>, Seq<TyView>>,
    visiting: Set<Seq<char>>,
) -> Result<ShallowPlanView, ErrorView>
    decreases table.dom().difference(visiting).len(), ty,
    when table.dom().finite()
{
    match ty {
        TyView::Int(_) => Ok(ShallowPlanView::Inline),
        TyView::UInt(_) => Ok(ShallowPlanView::Inline),
        TyView::Float(_) => Ok(ShallowPlanView::Inline),
        TyView::Bool => Ok(ShallowPlanView::Inline),
        TyView::Struct(name) => if visiting.contains(name) {
            Err(ErrorView { msg: recursive_struct(name), span })
        } else if !table.contains_key(name) {
            Err(ErrorView { msg: unknown_struct(name), span })
        } else {
            proof {
                lemma_mark_shrinks(table, visiting, name);
            }
            match shallow_fields(table[name], span, table, visiting.insert(name)) {
                Ok(fields) => Ok(ShallowPlanView::Struct { name, fields }),
                Err(error) => Err(error),
            }
        },
        TyView::Result(ok, err) => match shallow_plan(*ok, span, table, visiting) {
            Err(error) => Err(error),
            Ok(ok_plan) => match shallow_plan(*err, span, table, visiting) {
                Err(error) => Err(error),
                Ok(err_plan) => Ok(
                    ShallowPlanView::Result { ok: Box::new(ok_plan), err: Box::new(err_plan) },
                ),
            },
        },
        TyView::Unit => Err(ErrorView { msg: "unit 不是可 shallow 的值类型"@, span }),
        TyView::Unknown => Err(ErrorView { msg: "shallow 无法确定参数的静态类型"@, span }),
        _ => Err(ErrorView { msg: "类型 "@ + ty_name(ty) + " 不支持 shallow"@, span }),
    }
}

/// The plans for the fields of a struct, or the first failure.
pub open spec fn shallow_fields(
    types: Seq<TyView>,
    span: Span,
    table: Map<Seq<char>, Seq<TyView>>,
    visiting: Set<Seq<char>>,
) -> Result<Seq<ShallowPlanView>, ErrorView>
    decreases table.dom().difference(visiting).len(), types,
    when table.dom().finite()
{
    if types.len() == 0 {
        Ok(Seq::empty())
    } else {
        match shallow_fields(types.drop_last(), span, table, visiting) {
            Err(error) => Err(error),
            Ok(earlier) => match shallow_plan(types.last(), span, table, visiting) {
                Err(error) => Err(error),
                Ok(plan) => Ok(earlier.push(plan)),
            },
        }
    }
}

/// The plan for the operand of `shallow`: only a type without open parts has one, and a bare
/// scalar has no structure to copy.
pub open spec fn shallow_clone_of(
    ty: TyView,
    span: Span,
    table: Map<Seq<char>, Seq<TyView>>,
) -> Result<ShallowPlanView, ErrorView> {
    if ty.contains_unknown() {
        Err(ErrorView { msg: "shallow 无法确定 "@ + ty_name(ty) + " 的完整静态类型"@, span })
    } else {
        match shallow_plan(ty, span, table, Set::empty()) {
            Err(error) => Err(error),
            Ok(plan) => if plan is Inline {
                Err(ErrorView { msg: "类型 "@ + ty_name(ty) + " 不提供 shallow"@, span })
            } else {
                Ok(plan)
            },
        }
    }
}

/// What a function that makes a plan owes its caller.
pub open spec fn plan_agrees(
    result: AliasResult<ShallowClonePlan>,
    expected: Result<ShallowPlanView, ErrorView>,
) -> bool {
    match expected {
        Ok(plan) => result is Ok && result.unwrap()@ == plan,
        Err(error) => fault_of(result) == Some(error),
    }
}

/// A failure among the first fields is the failure of the whole list.
proof fn lemma_fields_fail(
    types: Seq<TyView>,
    n: int,
    span: Span,
    table: Map<Seq<char>, Seq<TyView>>,
    visiting: Set<Seq<char>>,
    error: ErrorView,
)
    requires
        table.dom().finite(),
        0 <= n <= types.len(),
        shallow_fields(types.subrange(0, n), span, table, visiting) == Err::<
            Seq<ShallowPlanView>,
            ErrorView,
        >(error),
    ensures
        shallow_fields(types, span, table, visiting) == Err::<Seq<ShallowPlanView>, ErrorView>(error),
    decreases types.len() - n,
{
    if n == types.len() {
        assert(types.subrange(0, n) =~= types);
    } else {
        let longer = types.subrange(0, n + 1);
        assert(longer.drop_last() =~= types.subrange(0, n));
        lemma_fields_fail(types, n + 1, span, table, visiting, error);
    }
}

/// Makes the plan for a settled type, given the structs that are being expanded around it.
pub fn build_shallow_clone_plan(
    ty: &Ty,
    span: Span,
    structs: &StructTable,
    visiting: &mut Vec<String>,
) -> (r: AliasResult<ShallowClonePlan>)
    ensures
        plan_agrees(r, shallow_plan(ty@, span, structs@, names_of(old(visiting)@))),
        r is Ok ==> final(visiting)@ == old(visiting)@,
    decreases structs@.dom().difference(names_of(old(visiting)@)).len(), ty,
{
    proof {
        lemma_defs_finite(structs.defs@);
    }
    match ty {
        Ty::Int(_) | Ty::UInt(_) | Ty::Float(_) | Ty::Bool => Ok(ShallowClonePlan::Inline),
        Ty::Struct(name) => {
            if stack_contains(visiting, name) {
                let detail = quoted("ShallowCloneable 结构体依赖出现递归 '", name, "'");
                return Err(broken_invariant(span, detail.as_str()));
            }
            let fields = match structs.get(name) {
                Some(fields) => fields,
                None => {
                    let detail = quoted("shallow 引用未知结构体 '", name, "'");
                    return Err(broken_invariant(span, detail.as_str()));
                },
            };
            let ghost outer = visiting@;
            proof {
                lemma_names_push(outer, *name);
                lemma_mark_shrinks(structs@, names_of(outer), name@);
            }
            visiting.push(name.clone());
            let ghost inner = visiting@;
            let ghost marked = names_of(inner);
            let ghost types = ty_views(fields@);
            let mut plans: Vec<ShallowClonePlan> = Vec::new();
            let mut i: usize = 0;
            proof {
                assert(types.subrange(0, 0) =~= Seq::<TyView>::empty());
                assert(plans@.map_values(|plan: ShallowClonePlan| plan@) =~= Seq::<
                    ShallowPlanView,
                >::empty());
            }
            while i < fields.len()
                invariant
                    i <= fields.len(),
                    types == ty_views(fields@),
                    structs@.dom().finite(),
                    visiting@ == inner,
                    marked == names_of(inner),
                    marked == names_of(outer).insert(name@),
                    outer == old(visiting)@,
                    inner == outer.push(*name),
                    structs@.dom().difference(marked).len() < structs@.dom().difference(
                        names_of(outer),
                    ).len(),
                    ty@ == TyView::Struct(name@),
                    !names_of(outer).contains(name@),
                    structs@.contains_key(name@),
                    structs@[name@] == types,
                    shallow_fields(types.subrange(0, i as int), span, structs@, marked) == Ok::<
                        Seq<ShallowPlanView>,
                        ErrorView,
                    >(plans@.map_values(|plan: ShallowClonePlan| plan@)),
                decreases fields.len() - i,
            {
                let ghost prefix = types.subrange(0, i + 1);
                proof {
                    assert(prefix.drop_last() =~= types.subrange(0, i as int));
                    assert(prefix.last() == fields@[i as int]@);
                }
                match build_shallow_clone_plan(&fields[i], span, structs, visiting) {
                    Ok(plan) => {
                        let ghost before = plans@.map_values(|plan: ShallowClonePlan| plan@);
                        plans.push(plan);
                        assert(plans@.map_values(|plan: ShallowClonePlan| plan@) =~= before.push(
                            plan@,
                        ));
                    },
                    Err(error) => {
                        proof {
                            lemma_fields_fail(types, i + 1, span, structs@, marked, error@);
                        }
                        return Err(error);
                    },
                }
                i += 1;
            }
            proof {
                assert(types.subrange(0, i as int) =~= types);
            }
            let _ = visiting.pop();
            assert(visiting@ =~= outer);
            let plan = ShallowClonePlan::Struct { name: name.clone(), fields: plans };
            assert(plan@->fields =~= plans@.map_values(|plan: ShallowClonePlan| plan@));
            Ok(plan)
        },
        Ty::Result(ok, err) => {
            let ok_plan = match build_shallow_clone_plan(ok, span, structs, visiting) {
                Ok(plan) => plan,
                Err(error) => {
                    return Err(error);
                },
            };
            match build_shallow_clone_plan(err, span, structs, visiting) {
                Ok(err_plan) => Ok(
                    ShallowClonePlan::Result { ok: Box::new(ok_plan), err: Box::new(err_plan) },
                ),
                Err(error) => Err(error),
            }
        },
        Ty::Unit => Err(error(span, "unit 不是可 shallow 的值类型")),
        Ty::Unknown => Err(error(span, "shallow 无法确定参数的静态类型")),
        Ty::Str
        | Ty::Array(_)
        | Ty::Func { .. }
        | Ty::FuncPoly
        | Ty::Iterator(_)
        | Ty::Ptr { .. } => {
            let name = ty.name();
            let text = quoted("类型 ", &name, " 不支持 shallow");
            Err(AliasError { msg: text, span })
        },
    }
}

/// Makes the plan for the operand of `shallow`.
pub fn shallow_clone_root_plan_with(ty: &Ty, span: Span, structs: &StructTable) -> (r: AliasResult<
    ShallowClonePlan,
>)
    ensures
        plan_agrees(r, shallow_clone_of(ty@, span, structs@)),
{
    if ty.contains_unknown() {
        let name = ty.name();
        let text = quoted("shallow 无法确定 ", &name, " 的完整静态类型");
        return Err(AliasError { msg: text, span });
    }
    let mut visiting: Vec<String> = Vec::new();
    assert(names_of(visiting@) =~= Set::empty());
    match build_shallow_clone_plan(ty, span, structs, &mut visiting) {
        Err(error) => Err(error),
        Ok(plan) => {
            if matches!(plan, ShallowClonePlan::Inline) {
                let name = ty.name();
                let text = quoted("类型 ", &name, " 不提供 shallow");
                return Err(AliasError { msg: text, span });
            }
            Ok(plan)
        },
    }
}

/// The deep plan that does the same work as a shallow plan.
pub open spec fn as_deep(plan: ShallowPlanView) -> DeepPlanView
    decreases plan,
{
    match plan {
        ShallowPlanView::Inline => DeepPlanView::Inline,
        ShallowPlanView::Struct { name, fields } => DeepPlanView::Struct {
            name,
            fields: Seq::new(
                fields.len(),
                |i: int|
                    if 0 <= i < fields.len() {
                        as_deep(fields[i])
                    } else {
                        DeepPlanView::Inline
                    },
            ),
        },
        ShallowPlanView::Result { ok, err } => DeepPlanView::Result {
            ok: Box::new(as_deep(*ok)),
            err: Box::new(as_deep(*err)),
        },
    }
}

/// What can be copied shallowly can be copied deeply, and the two copies are the same: a
/// shallow copy never leaves a dynamic owner shared.
pub proof fn law_shallow_is_deep(
    ty: TyView,
    span: Span,
    table: Map<Seq<char>, Seq<TyView>>,
    visiting: Set<Seq<char>>,
)
    requires
        table.dom().finite(),
        shallow_plan(ty, span, table, visiting) is Ok,
    ensures
        deep_plan(ty, span, table, visiting) == Ok::<DeepPlanView, ErrorView>(
            as_deep(shallow_plan(ty, span, table, visiting)->Ok_0),
        ),
    decreases table.dom().difference(visiting).len(), ty,
{
    match ty {
        TyView::Struct(name) => {
            lemma_mark_shrinks(table, visiting, name);
            lemma_shallow_fields_are_deep(table[name], span, table, visiting.insert(name));
            let plan = shallow_plan(ty, span, table, visiting)->Ok_0;
            let shallow = shallow_fields(table[name], span, table, visiting.insert(name))->Ok_0;
            assert(as_deep(plan)->fields =~= shallow.map_values(|p: ShallowPlanView| as_deep(p)));
        },
        TyView::Result(ok, err) => {
            law_shallow_is_deep(*ok, span, table, visiting);
            law_shallow_is_deep(*err, span, table, visiting);
        },
        _ => {},
    }
}

proof fn lemma_shallow_fields_are_deep(
    types: Seq<TyView>,
    span: Span,
    table: Map<Seq<char>, Seq<TyView>>,
    visiting: Set<Seq<char>>,
)
    requires
        table.dom().finite(),
        shallow_fields(types, span, table, visiting) is Ok,
    ensures
        deep_fields(types, span, table, visiting) == Ok::<Seq<DeepPlanView>, ErrorView>(
            shallow_fields(types, span, table, visiting)->Ok_0.map_values(
                |p: ShallowPlanView| as_deep(p),
            ),
        ),
    decreases table.dom().difference(visiting).len(), types,
{
    let f = |p: ShallowPlanView| as_deep(p);
    if types.len() == 0 {
        assert(Seq::<ShallowPlanView>::empty().map_values(f) =~= Seq::<DeepPlanView>::empty());
    } else {
        lemma_shallow_fields_are_deep(types.drop_last(), span, table, visiting);
        law_shallow_is_deep(types.last(), span, table, visiting);
        let earlier = shallow_fields(types.drop_last(), span, table, visiting)->Ok_0;
        let plan = shallow_plan(types.last(), span, table, visiting)->Ok_0;
        assert(earlier.push(plan).map_values(f) =~= earlier.map_values(f).push(as_deep(plan)));
    }
}

/// The operand of `shallow` is an aggregate.
pub proof fn law_shallow_root_is_aggregate(
    ty: TyView,
    span: Span,
    table: Map<Seq<char>, Seq<TyView>>,
)
    requires
        table.dom().finite(),
        shallow_clone_of(ty, span, table) is Ok,
    ensures
        ty is Struct || ty is Result,
        shallow_clone_of(ty, span, table)->Ok_0 is Struct || shallow_clone_of(
            ty,
            span,
            table,
        )->Ok_0 is Result,
{
}

} // verus!
