//! What is found out about the nodes of a program before its resolved tree is built.

use crate::deep_clone::DeepPlanView;
use crate::model::{BuiltinCall, CtorKind, DeepClonePlan, MethodTarget, ResolvedConversion};
use crate::tree::{BuiltinView, MethodView, builtin_view, method_view};
use crate::types::{
    AliasError, AliasResult, BindingId, ErrorView, LoanId, MethodId, Span, Ty, TyView, broken,
    decimal, fault_of, no_span, number_text,
};
use std::collections::HashMap;
use vstd::prelude::*;

verus! {

impl View for BindingId {
    type V = BindingId;

    open spec fn view(&self) -> BindingId {
        *self
    }
}

impl View for MethodId {
    type V = MethodId;

    open spec fn view(&self) -> MethodId {
        *self
    }
}

/// What is known of some nodes, by their numbers.
pub struct Table<T> {
    pub raw: HashMap<u32, T>,
}

impl<T: View> View for Table<T> {
    type V = Map<u32, T::V>;

    open spec fn view(&self) -> Map<u32, T::V> {
        Map::new(|id: u32| self.raw@.contains_key(id), |id: u32| self.raw@[id]@)
    }
}

pub open spec fn found<V>(table: Map<u32, V>, id: u32) -> Option<V> {
    if table.contains_key(id) {
        Some(table[id])
    } else {
        None
    }
}

pub open spec fn maybe_view<T: View>(value: Option<T>) -> Option<T::V> {
    match value {
        Some(value) => Some(value@),
        None => None,
    }
}

impl<T: View> Table<T> {
    pub fn new() -> (r: Table<T>)
        ensures
            r@ == Map::<u32, T::V>::empty(),
    {
        broadcast use vstd::std_specs::hash::group_hash_axioms;

        let r = Table { raw: HashMap::new() };
        assert(r@ =~= Map::empty());
        r
    }

    pub fn get(&self, id: u32) -> (r: Option<&T>)
        ensures
            match r {
                Some(value) => found(self@, id) == Some(value@),
                None => found(self@, id) is None,
            },
    {
        broadcast use vstd::std_specs::hash::group_hash_axioms;

        self.raw.get(&id)
    }

    pub fn insert(&mut self, id: u32, value: T)
        ensures
            final(self)@ == old(self)@.insert(id, value@),
    {
        broadcast use vstd::std_specs::hash::group_hash_axioms;

        let _ = self.raw.insert(id, value);
        assert(self@ =~= old(self)@.insert(id, value@));
    }

    /// Takes what is known of a node out of the table.
    pub fn take(&mut self, id: u32) -> (r: Option<T>)
        ensures
            maybe_view(r) == found(old(self)@, id),
            final(self)@ == old(self)@.remove(id),
    {
        broadcast use vstd::std_specs::hash::group_hash_axioms;

        let value = self.raw.remove(&id);
        assert(self@ =~= old(self)@.remove(id));
        value
    }

    /// The number of nodes that something is known of.
    pub fn len(&self) -> (r: usize)
        ensures
            r == self@.dom().len(),
    {
        broadcast use vstd::std_specs::hash::group_hash_axioms;

        assert(self@.dom() =~= self.raw@.dom());
        self.raw.len()
    }
}

/// Takes what is known of a node out of a table; it has to be there.
pub fn take_required<T: View>(facts: &mut Table<T>, id: u32, span: Span, what: &str) -> (r:
    AliasResult<T>)
    ensures
        match found(old(facts)@, id) {
            Some(value) => r matches Ok(taken) && taken@ == value,
            None => fault_of(r) == Some(missing_fact(span, what@)),
        },
        final(facts)@ == old(facts)@.remove(id),
{
    match facts.take(id) {
        Some(value) => Ok(value),
        None => {
            let mut text: String = String::from_str("内部 sema 不变式被破坏: ");
            text.append(what);
            text.append("缺失");
            Err(AliasError { msg: text, span })
        },
    }
}

pub open spec fn missing_fact(span: Span, what: Seq<char>) -> ErrorView {
    ErrorView { msg: "内部 sema 不变式被破坏: "@ + what + "缺失"@, span }
}

/// What a call was resolved to.
#[derive(Debug)]
pub enum LowerCallTarget {
    FunctionValue,
    StructConstructor(String),
    ResultConstructor(CtorKind),
    Builtin(BuiltinCall),
    Typeof,
    Method(MethodTarget),
    ContextualConversion(ResolvedConversion),
    Borrow,
    Move,
}

pub enum TargetView {
    FunctionValue,
    StructConstructor(Seq<char>),
    ResultConstructor(CtorKind),
    Builtin(BuiltinView),
    Typeof,
    Method(MethodView),
    ContextualConversion(ResolvedConversion),
    Borrow,
    Move,
}

impl View for LowerCallTarget {
    type V = TargetView;

    open spec fn view(&self) -> TargetView {
        match *self {
            LowerCallTarget::FunctionValue => TargetView::FunctionValue,
            LowerCallTarget::StructConstructor(name) => TargetView::StructConstructor(name@),
            LowerCallTarget::ResultConstructor(kind) => TargetView::ResultConstructor(kind),
            LowerCallTarget::Builtin(builtin) => TargetView::Builtin(builtin_view(builtin)),
            LowerCallTarget::Typeof => TargetView::Typeof,
            LowerCallTarget::Method(target) => TargetView::Method(method_view(target)),
            LowerCallTarget::ContextualConversion(mode) => TargetView::ContextualConversion(mode),
            LowerCallTarget::Borrow => TargetView::Borrow,
            LowerCallTarget::Move => TargetView::Move,
        }
    }
}

/// What is known of an expression.
#[derive(Debug)]
pub struct LowerExprInfo {
    pub ty: Ty,
    pub call_target: Option<LowerCallTarget>,
    /// Set where the name of a function without parameters stands for a call of it.
    pub implicit_zero_callee: Option<Ty>,
}

pub struct ExprFact {
    pub ty: TyView,
    pub call_target: Option<TargetView>,
    pub implicit_zero_callee: Option<TyView>,
}

impl View for LowerExprInfo {
    type V = ExprFact;

    open spec fn view(&self) -> ExprFact {
        ExprFact {
            ty: self.ty@,
            call_target: maybe_view(self.call_target),
            implicit_zero_callee: maybe_view(self.implicit_zero_callee),
        }
    }
}

/// A place that an expression was resolved to.
#[derive(Debug)]
#[allow(inconsistent_fields)]
pub enum LowerPlaceInfo {
    Local { binding_id: BindingId, ty: Ty },
    Field { base: Box<LowerPlaceInfo>, field_index: usize, ty: Ty },
    Index { base: Box<LowerPlaceInfo>, ty: Ty },
}

#[allow(inconsistent_fields)]
pub enum PlaceFact {
    Local { binding_id: BindingId, ty: TyView },
    Field { base: Box<PlaceFact>, field_index: usize, ty: TyView },
    Index { base: Box<PlaceFact>, ty: TyView },
}

pub open spec fn place_fact(info: LowerPlaceInfo) -> PlaceFact
    decreases info,
{
    match info {
        LowerPlaceInfo::Local { binding_id, ty } => PlaceFact::Local { binding_id, ty: ty@ },
        LowerPlaceInfo::Field { base, field_index, ty } => PlaceFact::Field {
            base: Box::new(place_fact(*base)),
            field_index,
            ty: ty@,
        },
        LowerPlaceInfo::Index { base, ty } => PlaceFact::Index {
            base: Box::new(place_fact(*base)),
            ty: ty@,
        },
    }
}

impl View for LowerPlaceInfo {
    type V = PlaceFact;

    open spec fn view(&self) -> PlaceFact {
        place_fact(*self)
    }
}

pub open spec fn fact_type(place: PlaceFact) -> TyView {
    match place {
        PlaceFact::Local { ty, .. } => ty,
        PlaceFact::Field { ty, .. } => ty,
        PlaceFact::Index { ty, .. } => ty,
    }
}

/// The variable at the bottom of a place.
pub open spec fn fact_root(place: PlaceFact) -> BindingId
    decreases place,
{
    match place {
        PlaceFact::Local { binding_id, .. } => binding_id,
        PlaceFact::Field { base, .. } => fact_root(*base),
        PlaceFact::Index { base, .. } => fact_root(*base),
    }
}

impl LowerPlaceInfo {
    pub fn ty(&self) -> (r: &Ty)
        ensures
            r@ == fact_type(self@),
    {
        match self {
            LowerPlaceInfo::Local { ty, .. } => ty,
            LowerPlaceInfo::Field { ty, .. } => ty,
            LowerPlaceInfo::Index { ty, .. } => ty,
        }
    }

    pub fn root_binding_id(&self) -> (r: BindingId)
        ensures
            r == fact_root(self@),
        decreases self,
    {
        match self {
            LowerPlaceInfo::Local { binding_id, .. } => *binding_id,
            LowerPlaceInfo::Field { base, .. } => base.root_binding_id(),
            LowerPlaceInfo::Index { base, .. } => base.root_binding_id(),
        }
    }
}

/// A place that is read into a slot that owns its value.
#[derive(Debug)]
pub struct LowerOwningReadInfo {
    pub place: LowerPlaceInfo,
    pub plan: DeepClonePlan,
}

pub struct ReadFact {
    pub place: PlaceFact,
    pub plan: DeepPlanView,
}

impl View for LowerOwningReadInfo {
    type V = ReadFact;

    open spec fn view(&self) -> ReadFact {
        ReadFact { place: self.place@, plan: self.plan@ }
    }
}

/// An alias or a pointer that an expression makes.
#[derive(Debug)]
pub struct LowerBorrowInfo {
    pub loan_id: LoanId,
    pub place: LowerPlaceInfo,
    pub source_writable: bool,
}

pub struct BorrowFact {
    pub loan_id: LoanId,
    pub place: PlaceFact,
    pub source_writable: bool,
}

impl View for LowerBorrowInfo {
    type V = BorrowFact;

    open spec fn view(&self) -> BorrowFact {
        BorrowFact {
            loan_id: self.loan_id,
            place: self.place@,
            source_writable: self.source_writable,
        }
    }
}

/// Everything that is known when the resolved tree is built. All of it has to be used up.
pub struct LowerFacts {
    pub exprs: Table<LowerExprInfo>,
    pub bindings: Table<Ty>,
    pub binding_ids: Table<BindingId>,
    pub receivers: Table<Ty>,
    pub method_ids: Table<MethodId>,
    pub method_self_ids: Table<BindingId>,
    pub fields: Table<Ty>,
    pub field_indices: Table<usize>,
    pub assignment_places: Table<LowerPlaceInfo>,
    pub move_places: Table<LowerPlaceInfo>,
    pub borrow_places: Table<LowerBorrowInfo>,
    pub owning_reads: Table<LowerOwningReadInfo>,
    pub ctor_arg_indices: Table<usize>,
    pub params: Table<Ty>,
    pub param_ids: Table<BindingId>,
    pub fors: Table<Ty>,
    pub for_plans: Table<DeepClonePlan>,
    pub for_ids: Table<BindingId>,
    pub match_binding_ids: Table<BindingId>,
    pub expr_binding_ids: Table<BindingId>,
    /// The number of the next function.
    pub next_function: u32,
}

pub struct FactsMap {
    pub exprs: Map<u32, ExprFact>,
    pub bindings: Map<u32, TyView>,
    pub binding_ids: Map<u32, BindingId>,
    pub receivers: Map<u32, TyView>,
    pub method_ids: Map<u32, MethodId>,
    pub method_self_ids: Map<u32, BindingId>,
    pub fields: Map<u32, TyView>,
    pub field_indices: Map<u32, usize>,
    pub assignment_places: Map<u32, PlaceFact>,
    pub move_places: Map<u32, PlaceFact>,
    pub borrow_places: Map<u32, BorrowFact>,
    pub owning_reads: Map<u32, ReadFact>,
    pub ctor_arg_indices: Map<u32, usize>,
    pub params: Map<u32, TyView>,
    pub param_ids: Map<u32, BindingId>,
    pub fors: Map<u32, TyView>,
    pub for_plans: Map<u32, DeepPlanView>,
    pub for_ids: Map<u32, BindingId>,
    pub match_binding_ids: Map<u32, BindingId>,
    pub expr_binding_ids: Map<u32, BindingId>,
    pub next_function: u32,
}

impl View for LowerFacts {
    type V = FactsMap;

    open spec fn view(&self) -> FactsMap {
        FactsMap {
            exprs: self.exprs@,
            bindings: self.bindings@,
            binding_ids: self.binding_ids@,
            receivers: self.receivers@,
            method_ids: self.method_ids@,
            method_self_ids: self.method_self_ids@,
            fields: self.fields@,
            field_indices: self.field_indices@,
            assignment_places: self.assignment_places@,
            move_places: self.move_places@,
            borrow_places: self.borrow_places@,
            owning_reads: self.owning_reads@,
            ctor_arg_indices: self.ctor_arg_indices@,
            params: self.params@,
            param_ids: self.param_ids@,
            fors: self.fors@,
            for_plans: self.for_plans@,
            for_ids: self.for_ids@,
            match_binding_ids: self.match_binding_ids@,
            expr_binding_ids: self.expr_binding_ids@,
            next_function: self.next_function,
        }
    }
}

/// The number of facts of each kind that are left, with the name of the kind.
pub open spec fn leftovers(facts: FactsMap) -> Seq<(Seq<char>, nat)> {
    seq![
        ("表达式"@, facts.exprs.dom().len()),
        ("绑定类型"@, facts.bindings.dom().len()),
        ("BindingId"@, facts.binding_ids.dom().len()),
        ("方法接收者"@, facts.receivers.dom().len()),
        ("MethodId"@, facts.method_ids.dom().len()),
        ("方法 self"@, facts.method_self_ids.dom().len()),
        ("结构体字段"@, facts.fields.dom().len()),
        ("字段索引"@, facts.field_indices.dom().len()),
        ("赋值 Place"@, facts.assignment_places.dom().len()),
        ("move Place"@, facts.move_places.dom().len()),
        ("borrow Place"@, facts.borrow_places.dom().len()),
        ("owning-slot read"@, facts.owning_reads.dom().len()),
        ("构造器实参字段索引"@, facts.ctor_arg_indices.dom().len()),
        ("函数参数类型"@, facts.params.dom().len()),
        ("函数参数 BindingId"@, facts.param_ids.dom().len()),
        ("for 循环变量类型"@, facts.fors.dom().len()),
        ("for 元素计划"@, facts.for_plans.dom().len()),
        ("for 循环变量 BindingId"@, facts.for_ids.dom().len()),
        ("Pattern BindingId"@, facts.match_binding_ids.dom().len()),
        ("标识符 BindingId"@, facts.expr_binding_ids.dom().len()),
    ]
}

/// The diagnostic for the first kind of facts that are left.
pub open spec fn leftover_fault(list: Seq<(Seq<char>, nat)>) -> Option<ErrorView>
    decreases list.len(),
{
    if list.len() == 0 {
        None
    } else if list[0].1 != 0 {
        Some(
            ErrorView {
                msg: broken("存在 "@ + decimal(list[0].1) + " 条未消费的"@ + list[0].0 + " fact"@),
                span: no_span(),
            },
        )
    } else {
        leftover_fault(list.drop_first())
    }
}

pub open spec fn count_views<'a>(list: Seq<(&'a str, usize)>) -> Seq<(Seq<char>, nat)> {
    Seq::new(list.len(), |i: int| (list[i].0@, list[i].1 as nat))
}

fn count_leftovers<'a>(facts: &LowerFacts) -> (r: Vec<(&'a str, usize)>)
    ensures
        count_views(r@) == leftovers(facts@),
{
    let mut list: Vec<(&'a str, usize)> = Vec::new();
    list.push(("表达式", facts.exprs.len()));
    list.push(("绑定类型", facts.bindings.len()));
    list.push(("BindingId", facts.binding_ids.len()));
    list.push(("方法接收者", facts.receivers.len()));
    list.push(("MethodId", facts.method_ids.len()));
    list.push(("方法 self", facts.method_self_ids.len()));
    list.push(("结构体字段", facts.fields.len()));
    list.push(("字段索引", facts.field_indices.len()));
    list.push(("赋值 Place", facts.assignment_places.len()));
    list.push(("move Place", facts.move_places.len()));
    list.push(("borrow Place", facts.borrow_places.len()));
    list.push(("owning-slot read", facts.owning_reads.len()));
    list.push(("构造器实参字段索引", facts.ctor_arg_indices.len()));
    list.push(("函数参数类型", facts.params.len()));
    list.push(("函数参数 BindingId", facts.param_ids.len()));
    list.push(("for 循环变量类型", facts.fors.len()));
    list.push(("for 元素计划", facts.for_plans.len()));
    list.push(("for 循环变量 BindingId", facts.for_ids.len()));
    list.push(("Pattern BindingId", facts.match_binding_ids.len()));
    list.push(("标识符 BindingId", facts.expr_binding_ids.len()));
    assert(count_views(list@) =~= leftovers(facts@));
    list
}

/// Checks that all facts have been used up.
pub fn ensure_facts_consumed(facts: &LowerFacts) -> (r: AliasResult<()>)
    ensures
        fault_of(r) == leftover_fault(leftovers(facts@)),
{
    let list = count_leftovers(facts);
    let ghost all = leftovers(facts@);
    let mut i: usize = 0;
    assert(all.skip(0) =~= all);
    while i < list.len()
        invariant
            i <= list.len(),
            all == leftovers(facts@),
            count_views(list@) == all,
            leftover_fault(all) == leftover_fault(all.skip(i as int)),
        decreases list.len() - i,
    {
        proof {
            assert(all.skip(i as int).drop_first() =~= all.skip(i + 1));
            assert(all.skip(i as int)[0] == all[i as int]);
            assert(all[i as int] == count_views(list@)[i as int]);
        }
        let (what, count) = list[i];
        if count != 0 {
            let mut text: String = String::from_str("内部 sema 不变式被破坏: ");
            text.append("存在 ");
            text.append(number_text(count as u64).as_str());
            text.append(" 条未消费的");
            text.append(what);
            text.append(" fact");
            assert(text@ =~= broken(
                "存在 "@ + decimal(count as nat) + " 条未消费的"@ + what@ + " fact"@,
            ));
            return Err(AliasError { msg: text, span: Span::default() });
        }
        i += 1;
    }
    assert(all.skip(i as int) =~= Seq::empty());
    Ok(())
}

} // verus!
