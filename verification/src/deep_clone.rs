//! Which types can be copied with everything they own, and how.

use crate::model::DeepClonePlan;
use crate::structs::{
    StructTable, lemma_defs_finite, lemma_mark_shrinks, lemma_names_push, names_of, stack_contains,
};
use crate::types::{
    AliasError, AliasResult, ErrorView, Span, Ty, TyView, broken, broken_invariant, error, fault_of,
    quoted, ty_name, ty_views,
};
use vstd::prelude::*;

verus! {

/// The mathematical value of a deep-clone plan.
pub enum DeepPlanView {
    Inline,
    String,
    Struct { name: Seq<char>, fields: Seq<DeepPlanView> },
    Array(Box<DeepPlanView>),
    Result { ok: Box<DeepPlanView>, err: Box<DeepPlanView> },
}

pub open spec fn deep_view(plan: DeepClonePlan) -> DeepPlanView
    decreases plan,
{
    match plan {
        DeepClonePlan::Inline => DeepPlanView::Inline,
        DeepClonePlan::String => DeepPlanView::String,
        DeepClonePlan::Struct { name, fields } => DeepPlanView::Struct {
            name: name@,
            fields: Seq::new(
                fields@.len(),
                |i: int|
                    if 0 <= i < fields@.len() {
                        deep_view(fields@[i])
                    } else {
                        DeepPlanView::Inline
                    },
            ),
        },
        DeepClonePlan::Array(elem) => DeepPlanView::Array(Box::new(deep_view(*elem))),
        DeepClonePlan::Result { ok, err } => DeepPlanView::Result {
            ok: Box::new(deep_view(*ok)),
            err: Box::new(deep_view(*err)),
        },
    }
}

impl View for DeepClonePlan {
    type V = DeepPlanView;

    open spec fn view(&self) -> DeepPlanView {
        deep_view(*self)
    }
}

impl DeepClonePlan {
    /// Whether two plans are the same.
    pub fn same(&self, other: &DeepClonePlan) -> (r: bool)
        ensures
            r == (self@ == other@),
        decreases self,
    {
        match (self, other) {
            (DeepClonePlan::Inline, DeepClonePlan::Inline) => true,
            (DeepClonePlan::String, DeepClonePlan::String) => true,
            (DeepClonePlan::Array(a), DeepClonePlan::Array(b)) => a.same(b),
            (
                DeepClonePlan::Result { ok: a, err: e },
                DeepClonePlan::Result { ok: b, err: f },
            ) => a.same(b) && e.same(f),
            (
                DeepClonePlan::Struct { name: a, fields: p },
                DeepClonePlan::Struct { name: b, fields: q },
            ) => {
                if p.len() != q.len() {
                    assert(self@->fields.len() != other@->fields.len());
                    return false;
                }
                let mut i: usize = 0;
                while i < p.len()
                    invariant
                        i <= p.len(),
                        p.len() == q.len(),
                        self matches DeepClonePlan::Struct { fields: sp, .. } && sp == p,
                        other matches DeepClonePlan::Struct { fields: oq, .. } && oq == q,
                        forall|k: int| 0 <= k < i ==> (#[trigger] p@[k])@ == q@[k]@,
                    decreases p.len() - i,
                {
                    if !p[i].same(&q[i]) {
                        assert(self@->fields[i as int] != other@->fields[i as int]);
                        return false;
                    }
                    i += 1;
                }
                assert(self@->fields =~= other@->fields);
                *a == *b
            },
            _ => false,
        }
    }
}

impl Clone for DeepClonePlan {
    fn clone(&self) -> (r: DeepClonePlan)
        ensures
            r@ == self@,
        decreases self,
    {
        match self {
            DeepClonePlan::Inline => DeepClonePlan::Inline,
            DeepClonePlan::String => DeepClonePlan::String,
            DeepClonePlan::Array(elem) => DeepClonePlan::Array(Box::new((&**elem).clone())),
            DeepClonePlan::Result { ok, err } => DeepClonePlan::Result {
                ok: Box::new((&**ok).clone()),
                err: Box::new((&**err).clone()),
            },
            DeepClonePlan::Struct { name, fields } => {
                let mut copied: Vec<DeepClonePlan> = Vec::new();
                let mut i: usize = 0;
                while i < fields.len()
                    invariant
                        i <= fields.len(),
                        self matches DeepClonePlan::Struct { fields: f, .. } && f == fields,
                        copied.len() == i,
                        forall|k: int| 0 <= k < i ==> (#[trigger] copied@[k])@ == fields@[k]@,
                    decreases fields.len() - i,
                {
                    copied.push(fields[i].clone());
                    i += 1;
                }
                let r = DeepClonePlan::Struct { name: name.clone(), fields: copied };
                assert(r@->fields =~= self@->fields);
                r
            },
        }
    }
}

pub open spec fn recursive_struct(name: Seq<char>) -> Seq<char> {
    broken("DeepCloneable 结构体依赖出现递归 '"@ + name + "'"@)
}

pub open spec fn unknown_struct(name: Seq<char>) -> Seq<char> {
    broken("clone 引用未知结构体 '"@ + name + "'"@)
}

/// The plan for a settled type, given the structs that are being expanded around it. Scalars
/// are copied inline, text is duplicated, and aggregates copy part by part. Functions and
/// iterators cannot be copied.
pub open spec fn deep_plan(
    ty: TyView,
    span: Span,
    table: Map<Seq<char>, Seq<TyView>>,
    visiting: Set<Seq<char>>,
) -> Result<DeepPlanView, ErrorView>
    decreases table.dom().difference(visiting).len(), ty,
    when table.dom().finite()
{
    match ty {
        TyView::Int(_) => Ok(DeepPlanView::Inline),
        TyView::UInt(_) => Ok(DeepPlanView::Inline),
        TyView::Float(_) => Ok(DeepPlanView::Inline),
        TyView::Bool => Ok(DeepPlanView::Inline),
        TyView::Str => Ok(DeepPlanView::String),
        TyView::Struct(name) => if visiting.contains(name) {
            Err(ErrorView { msg: recursive_struct(name), span })
        } else if !table.contains_key(name) {
            Err(ErrorView { msg: unknown_struct(name), span })
        } else {
            proof {
                lemma_mark_shrinks(table, visiting, name);
            }
            match deep_fields(table[name], span, table, visiting.insert(name)) {
                Ok(fields) => Ok(DeepPlanView::Struct { name, fields }),
                Err(error) => Err(error),
            }
        },
        TyView::Array(elem) => match deep_plan(*elem, span, table, visiting) {
            Ok(plan) => Ok(DeepPlanView::Array(Box::new(plan))),
            Err(error) => Err(error),
        },
        TyView::Result(ok, err) => match deep_plan(*ok, span, table, visiting) {
            Err(error) => Err(error),
            Ok(ok_plan) => match deep_plan(*err, span, table, visiting) {
                Err(error) => Err(error),
                Ok(err_plan) => Ok(
                    DeepPlanView::Result { ok: Box::new(ok_plan), err: Box::new(err_plan) },
                ),
            },
        },
        TyView::Unit => Err(ErrorView { msg: "unit 不是可 clone 的值类型"@, span }),
        TyView::Unknown => Err(ErrorView { msg: "clone 无法确定参数的静态类型"@, span }),
        _ => Err(ErrorView { msg: "类型 "@ + ty_name(ty) + " 不支持 clone"@, span }),
    }
}

/// The plans for the fields of a struct, or the first failure.
pub open spec fn deep_fields(
    types: Seq<TyView>,
    span: Span,
    table: Map<Seq<char>, Seq<TyView>>,
    visiting: Set<Seq<char>>,
) -> Result<Seq<DeepPlanView>, ErrorView>
    decreases table.dom().difference(visiting).len(), types,
    when table.dom().finite()
{
    if types.len() == 0 {
        Ok(Seq::empty())
    } else {
        match deep_fields(types.drop_last(), span, table, visiting) {
            Err(error) => Err(error),
            Ok(earlier) => match deep_plan(types.last(), span, table, visiting) {
                Err(error) => Err(error),
                Ok(plan) => Ok(earlier.push(plan)),
            },
        }
    }
}

/// The plan for a type: only a type without open parts has one.
pub open spec fn deep_clone_of(
    ty: TyView,
    span: Span,
    table: Map<Seq<char>, Seq<TyView>>,
) -> Result<DeepPlanView, ErrorView> {
    if ty.contains_unknown() {
        Err(ErrorView { msg: "clone 无法确定 "@ + ty_name(ty) + " 的完整静态类型"@, span })
    } else {
        deep_plan(ty, span, table, Set::empty())
    }
}

/// What a function that makes a plan owes its caller.
pub open spec fn plan_agrees(
    result: AliasResult<DeepClonePlan>,
    expected: Result<DeepPlanView, ErrorView>,
) -> bool {
    match expected {
        Ok(plan) => result is Ok && result.unwrap()@ == plan,
        Err(error) => fault_of(result) == Some(error),
    }
}

/// A failure among the first fields is the failure of the whole list.
proof fn lemma_fields_fail(
    types: Seq<TyView>,
    n: int,
    span: Span,
    table: Map<Seq<char>, Seq<TyView>>,
    visiting: Set<Seq<char>>,
    error: ErrorView,
)
    requires
        table.dom().finite(),
        0 <= n <= types.len(),
        deep_fields(types.subrange(0, n), span, table, visiting) == Err::<
            Seq<DeepPlanView>,
            ErrorView,
        >(error),
    ensures
        deep_fields(types, span, table, visiting) == Err::<Seq<DeepPlanView>, ErrorView>(error),
    decreases types.len() - n,
{
    if n == types.len() {
        assert(types.subrange(0, n) =~= types);
    } else {
        let longer = types.subrange(0, n + 1);
        assert(longer.drop_last() =~= types.subrange(0, n));
        lemma_fields_fail(types, n + 1, span, table, visiting, error);
    }
}

/// Makes the plan for a settled type, given the structs that are being expanded around it.
pub fn build_deep_clone_plan(
    ty: &Ty,
    span: Span,
    structs: &StructTable,
    visiting: &mut Vec<String>,
) -> (r: AliasResult<DeepClonePlan>)
    ensures
        plan_agrees(r, deep_plan(ty@, span, structs@, names_of(old(visiting)@))),
        r is Ok ==> final(visiting)@ == old(visiting)@,
    decreases structs@.dom().difference(names_of(old(visiting)@)).len(), ty,
{
    proof {
        lemma_defs_finite(structs.defs@);
    }
    match ty {
        Ty::Int(_) | Ty::UInt(_) | Ty::Float(_) | Ty::Bool => Ok(DeepClonePlan::Inline),
        Ty::Str => Ok(DeepClonePlan::String),
        Ty::Struct(name) => {
            if stack_contains(visiting, name) {
                let detail = quoted("DeepCloneable 结构体依赖出现递归 '", name, "'");
                return Err(broken_invariant(span, detail.as_str()));
            }
            let fields = match structs.get(name) {
                Some(fields) => fields,
                None => {
                    let detail = quoted("clone 引用未知结构体 '", name, "'");
                    return Err(broken_invariant(span, detail.as_str()));
                },
            };
            let ghost outer = visiting@;
            proof {
                lemma_names_push(outer, *name);
                lemma_mark_shrinks(structs@, names_of(outer), name@);
            }
            visiting.push(name.clone());
            let ghost inner = visiting@;
            let ghost marked = names_of(inner);
            let ghost types = ty_views(fields@);
            let mut plans: Vec<DeepClonePlan> = Vec::new();
            let mut i: usize = 0;
            proof {
                assert(types.subrange(0, 0) =~= Seq::<TyView>::empty());
                assert(plans@.map_values(|plan: DeepClonePlan| plan@) =~= Seq::<
                    DeepPlanView,
                >::empty());
            }
            while i < fields.len()
                invariant
                    i <= fields.len(),
                    types == ty_views(fields@),
                    structs@.dom().finite(),
                    visiting@ == inner,
                    marked == names_of(inner),
                    marked == names_of(outer).insert(name@),
                    outer == old(visiting)@,
                    inner == outer.push(*name),
                    structs@.dom().difference(marked).len() < structs@.dom().difference(
                        names_of(outer),
                    ).len(),
                    ty@ == TyView::Struct(name@),
                    !names_of(outer).contains(name@),
                    structs@.contains_key(name@),
                    structs@[name@] == types,
                    deep_fields(types.subrange(0, i as int), span, structs@, marked) == Ok::<
                        Seq<DeepPlanView>,
                        ErrorView,
                    >(plans@.map_values(|plan: DeepClonePlan| plan@)),
                decreases fields.len() - i,
            {
                let ghost prefix = types.subrange(0, i + 1);
                proof {
                    assert(prefix.drop_last() =~= types.subrange(0, i as int));
                    assert(prefix.last() == fields@[i as int]@);
                }
                match build_deep_clone_plan(&fields[i], span, structs, visiting) {
                    Ok(plan) => {
                        let ghost before = plans@.map_values(|plan: DeepClonePlan| plan@);
                        plans.push(plan);
                        assert(plans@.map_values(|plan: DeepClonePlan| plan@) =~= before.push(
                            plan@,
                        ));
                    },
                    Err(error) => {
                        proof {
                            lemma_fields_fail(types, i + 1, span, structs@, marked, error@);
                        }
                        return Err(error);
                    },
                }
                i += 1;
            }
            proof {
                assert(types.subrange(0, i as int) =~= types);
            }
            let _ = visiting.pop();
            assert(visiting@ =~= outer);
            let plan = DeepClonePlan::Struct { name: name.clone(), fields: plans };
            assert(plan@->fields =~= plans@.map_values(|plan: DeepClonePlan| plan@));
            Ok(plan)
        },
        Ty::Array(elem) => match build_deep_clone_plan(elem, span, structs, visiting) {
            Ok(plan) => Ok(DeepClonePlan::Array(Box::new(plan))),
            Err(error) => Err(error),
        },
        Ty::Result(ok, err) => {
            let ok_plan = match build_deep_clone_plan(ok, span, structs, visiting) {
                Ok(plan) => plan,
                Err(error) => {
                    return Err(error);
                },
            };
            match build_deep_clone_plan(err, span, structs, visiting) {
                Ok(err_plan) => Ok(
                    DeepClonePlan::Result { ok: Box::new(ok_plan), err: Box::new(err_plan) },
                ),
                Err(error) => Err(error),
            }
        },
        Ty::Unit => Err(error(span, "unit 不是可 clone 的值类型")),
        Ty::Unknown => Err(error(span, "clone 无法确定参数的静态类型")),
        Ty::Func { .. } | Ty::FuncPoly | Ty::Iterator(_) | Ty::Ptr { .. } => {
            let name = ty.name();
            let text = quoted("类型 ", &name, " 不支持 clone");
            Err(AliasError { msg: text, span })
        },
    }
}

/// Makes the plan for a type.
pub fn deep_clone_plan_with(ty: &Ty, span: Span, structs: &StructTable) -> (r: AliasResult<
    DeepClonePlan,
>)
    ensures
        plan_agrees(r, deep_clone_of(ty@, span, structs@)),
{
    if ty.contains_unknown() {
        let name = ty.name();
        let text = quoted("clone 无法确定 ", &name, " 的完整静态类型");
        return Err(AliasError { msg: text, span });
    }
    let mut visiting: Vec<String> = Vec::new();
    assert(names_of(visiting@) =~= Set::empty());
    build_deep_clone_plan(ty, span, structs, &mut visiting)
}

} // verus!
