//! What type checking knows and what it records.

use crate::ast;
use crate::diagnostics::{error4, error5};
use crate::facts::{
    BorrowFact, ExprFact, LowerBorrowInfo, LowerCallTarget, LowerExprInfo, LowerOwningReadInfo,
    LowerPlaceInfo, PlaceFact, ReadFact, Table, TargetView, found, maybe_view,
};
use crate::ids::IdSet;
use crate::model::{MethodTarget, PointerViewSource};
use crate::structs::StructTable;
use crate::tree::{MethodView, method_view};
use crate::types::{
    AliasError, AliasResult, BindingId, ErrorView, MethodId, Span, Ty, TyView, broken_at,
    broken_invariant, copy_error, error, fault_of, ty_name, ty_views,
};
use vstd::prelude::*;

verus! {

/// Why an expression does not have the type that is expected of it.
#[derive(Debug)]
#[allow(inconsistent_fields)]
pub enum ExprCheckError {
    Mismatch { expected: Ty, actual: Ty, span: Span },
    LiteralOutOfRange { literal: String, expected: Ty, span: Span },
    Diagnostic(AliasError),
}

#[allow(inconsistent_fields)]
pub enum FaultView {
    Mismatch { expected: TyView, actual: TyView, span: Span },
    LiteralOutOfRange { literal: Seq<char>, expected: TyView, span: Span },
    Diagnostic(ErrorView),
}

impl View for ExprCheckError {
    type V = FaultView;

    open spec fn view(&self) -> FaultView {
        match *self {
            ExprCheckError::Mismatch { expected, actual, span } => FaultView::Mismatch {
                expected: expected@,
                actual: actual@,
                span,
            },
            ExprCheckError::LiteralOutOfRange { literal, expected, span } =>
                FaultView::LiteralOutOfRange { literal: literal@, expected: expected@, span },
            ExprCheckError::Diagnostic(error) => FaultView::Diagnostic(error@),
        }
    }
}

/// The diagnostic of a failed check.
pub open spec fn alias_of(fault: FaultView) -> ErrorView {
    match fault {
        FaultView::Mismatch { expected, actual, span } => ErrorView {
            msg: "需要 "@ + ty_name(expected) + ", 实际 "@ + ty_name(actual),
            span,
        },
        FaultView::LiteralOutOfRange { literal, expected, span } => ErrorView {
            msg: "字面量 "@ + literal + " 超出 "@ + ty_name(expected) + " 的表示范围"@,
            span,
        },
        FaultView::Diagnostic(error) => error,
    }
}

impl ExprCheckError {
    /// Turns a failed check into a diagnostic.
    pub fn into_alias(self) -> (r: AliasError)
        ensures
            r@ == alias_of(self@),
    {
        match self {
            ExprCheckError::Mismatch { expected, actual, span } => error4(
                span,
                "需要 ",
                expected.name().as_str(),
                ", 实际 ",
                actual.name().as_str(),
            ),
            ExprCheckError::LiteralOutOfRange { literal, expected, span } =>
                error5(
                    span,
                    "字面量 ",
                    literal.as_str(),
                    " 超出 ",
                    expected.name().as_str(),
                    " 的表示范围",
                ),
            ExprCheckError::Diagnostic(error) => error,
        }
    }
}

impl From<AliasError> for ExprCheckError {
    fn from(error: AliasError) -> (r: ExprCheckError) {
        ExprCheckError::Diagnostic(error)
    }
}

impl vstd::std_specs::convert::FromSpecImpl<AliasError> for ExprCheckError {
    open spec fn obeys_from_spec() -> bool {
        true
    }

    open spec fn from_spec(error: AliasError) -> ExprCheckError {
        ExprCheckError::Diagnostic(error)
    }
}

/// What a name stands for.
#[derive(Debug)]
pub struct VarInfo {
    pub id: BindingId,
    pub ty: Ty,
    pub mutable: bool,
}

pub struct VarView {
    pub id: BindingId,
    pub ty: TyView,
    pub mutable: bool,
}

impl View for VarInfo {
    type V = VarView;

    open spec fn view(&self) -> VarView {
        VarView { id: self.id, ty: self.ty@, mutable: self.mutable }
    }
}

/// The names that can be used at a point of a program, the innermost ones last.
#[derive(Debug)]
pub struct Scope {
    pub names: Vec<(String, VarInfo)>,
}

pub open spec fn name_views(list: Seq<(String, VarInfo)>) -> Seq<(Seq<char>, VarView)> {
    Seq::new(list.len(), |i: int| (list[i].0@, list[i].1@))
}

impl View for Scope {
    type V = Seq<(Seq<char>, VarView)>;

    open spec fn view(&self) -> Seq<(Seq<char>, VarView)> {
        name_views(self.names@)
    }
}

/// What a name stands for at a point of a program.
pub open spec fn in_scope(scope: Seq<(Seq<char>, VarView)>, name: Seq<char>) -> Option<VarView>
    decreases scope.len(),
{
    if scope.len() == 0 {
        None
    } else if scope.last().0 == name {
        Some(scope.last().1)
    } else {
        in_scope(scope.drop_last(), name)
    }
}

/// Whether two texts are the same.
pub fn is_text(name: &String, text: &str) -> (r: bool)
    ensures
        r == (name@ == text@),
{
    *name == String::from_str(text)
}

impl Scope {
    pub fn new() -> (r: Scope)
        ensures
            r@ == Seq::<(Seq<char>, VarView)>::empty(),
    {
        let r = Scope { names: Vec::new() };
        assert(r@ =~= Seq::empty());
        r
    }

    /// What a name stands for.
    pub fn get(&self, name: &String) -> (r: Option<&VarInfo>)
        ensures
            match r {
                Some(info) => in_scope(self@, name@) == Some(info@),
                None => in_scope(self@, name@) is None,
            },
    {
        let mut left: usize = self.names.len();
        assert(self@.take(left as int) =~= self@);
        while left > 0
            invariant
                left <= self.names.len(),
                in_scope(self@, name@) == in_scope(self@.take(left as int), name@),
            decreases left,
        {
            proof {
                assert(self@.take(left as int).drop_last() =~= self@.take(left - 1));
                assert(self@.take(left as int).last() == self@[left - 1]);
            }
            left -= 1;
            if self.names[left].0 == *name {
                return Some(&self.names[left].1);
            }
        }
        None
    }

    /// The same names, for a block of its own.
    pub fn child(&self) -> (r: Scope)
        ensures
            r@ == self@,
    {
        let mut names: Vec<(String, VarInfo)> = Vec::new();
        let mut i: usize = 0;
        while i < self.names.len()
            invariant
                i <= self.names.len(),
                names@.len() == i,
                forall|k: int| 0 <= k < i ==> name_views(names@)[k] == self@[k],
            decreases self.names.len() - i,
        {
            let (name, info) = &self.names[i];
            let ghost before = names@;
            names.push(
                (
                    name.clone(),
                    VarInfo { id: info.id, ty: info.ty.clone(), mutable: info.mutable },
                ),
            );
            assert forall|k: int| 0 <= k < i + 1 implies name_views(names@)[k] == self@[k] by {
                if k < i {
                    assert(name_views(names@)[k] == name_views(before)[k]);
                }
            }
            i += 1;
        }
        assert(name_views(names@) =~= self@);
        Scope { names }
    }

    /// Adds a name.
    pub fn insert(&mut self, name: String, info: VarInfo)
        ensures
            final(self)@ == old(self)@.push((name@, info@)),
    {
        self.names.push((name, info));
        assert(self@ =~= old(self)@.push((name@, info@)));
    }
}

/// A field of a declared struct.
#[derive(Debug)]
pub struct FieldInfo {
    pub name: String,
    pub mutable: bool,
    pub ty: Ty,
    pub has_default: bool,
}

pub struct FieldInfoView {
    pub name: Seq<char>,
    pub mutable: bool,
    pub ty: TyView,
    pub has_default: bool,
}

impl View for FieldInfo {
    type V = FieldInfoView;

    open spec fn view(&self) -> FieldInfoView {
        FieldInfoView {
            name: self.name@,
            mutable: self.mutable,
            ty: self.ty@,
            has_default: self.has_default,
        }
    }
}

pub open spec fn info_views(list: Seq<FieldInfo>) -> Seq<FieldInfoView> {
    Seq::new(list.len(), |i: int| list[i]@)
}

/// The number of the field with a name.
pub open spec fn field_at(fields: Seq<FieldInfoView>, name: Seq<char>, from: int) -> Option<int>
    decreases fields.len() - from,
{
    if from < 0 || from >= fields.len() {
        None
    } else if fields[from].name == name {
        Some(from)
    } else {
        field_at(fields, name, from + 1)
    }
}

/// Finds the field with a name.
pub fn find_field(fields: &Vec<FieldInfo>, name: &String) -> (r: Option<usize>)
    ensures
        match r {
            Some(index) => field_at(info_views(fields@), name@, 0) == Some(index as int) && index
                < fields@.len(),
            None => field_at(info_views(fields@), name@, 0) is None,
        },
{
    let mut i: usize = 0;
    while i < fields.len()
        invariant
            i <= fields.len(),
            field_at(info_views(fields@), name@, 0) == field_at(
                info_views(fields@),
                name@,
                i as int,
            ),
        decreases fields.len() - i,
    {
        if fields[i].name == *name {
            return Some(i);
        }
        i += 1;
    }
    None
}

/// The declared structs.
pub struct Structs {
    pub defs: Vec<(String, Vec<FieldInfo>)>,
    /// The same structs, with the types of their fields only.
    pub types: StructTable,
}

pub open spec fn struct_views(defs: Seq<(String, Vec<FieldInfo>)>) -> Seq<
    (Seq<char>, Seq<FieldInfoView>),
> {
    Seq::new(defs.len(), |i: int| (defs[i].0@, info_views(defs[i].1@)))
}

pub open spec fn struct_in(defs: Seq<(Seq<char>, Seq<FieldInfoView>)>, name: Seq<char>) -> Option<
    Seq<FieldInfoView>,
>
    decreases defs.len(),
{
    if defs.len() == 0 {
        None
    } else if defs.last().0 == name {
        Some(defs.last().1)
    } else {
        struct_in(defs.drop_last(), name)
    }
}

impl Structs {
    pub fn get(&self, name: &String) -> (r: Option<&Vec<FieldInfo>>)
        ensures
            match r {
                Some(fields) => struct_in(struct_views(self.defs@), name@) == Some(
                    info_views(fields@),
                ),
                None => struct_in(struct_views(self.defs@), name@) is None,
            },
    {
        let ghost all = struct_views(self.defs@);
        let mut left: usize = self.defs.len();
        assert(all.take(left as int) =~= all);
        while left > 0
            invariant
                left <= self.defs.len(),
                all == struct_views(self.defs@),
                struct_in(all, name@) == struct_in(all.take(left as int), name@),
            decreases left,
        {
            proof {
                assert(all.take(left as int).drop_last() =~= all.take(left - 1));
                assert(all.take(left as int).last() == all[left - 1]);
            }
            left -= 1;
            if self.defs[left].0 == *name {
                return Some(&self.defs[left].1);
            }
        }
        None
    }
}

/// What a method takes and gives back, and what a call of it goes to.
#[derive(Debug)]
pub struct MethodSig {
    pub params: Vec<Ty>,
    pub ret: Ty,
    pub target: Option<MethodTarget>,
}

pub struct SigView {
    pub params: Seq<TyView>,
    pub ret: TyView,
    pub target: Option<MethodView>,
}

impl View for MethodSig {
    type V = SigView;

    open spec fn view(&self) -> SigView {
        SigView {
            params: ty_views(self.params@),
            ret: self.ret@,
            target: match self.target {
                Some(target) => Some(method_view(target)),
                None => None,
            },
        }
    }
}

/// A method that a program declares.
#[derive(Debug)]
pub struct UserMethod {
    pub receiver: String,
    pub name: String,
    pub id: MethodId,
    pub params: Vec<Ty>,
    pub ret: Ty,
}

pub struct UserView {
    pub receiver: Seq<char>,
    pub name: Seq<char>,
    pub id: MethodId,
    pub params: Seq<TyView>,
    pub ret: TyView,
}

impl View for UserMethod {
    type V = UserView;

    open spec fn view(&self) -> UserView {
        UserView {
            receiver: self.receiver@,
            name: self.name@,
            id: self.id,
            params: ty_views(self.params@),
            ret: self.ret@,
        }
    }
}

pub open spec fn user_views(list: Seq<UserMethod>) -> Seq<UserView> {
    Seq::new(list.len(), |i: int| list[i]@)
}

pub open spec fn user_method(list: Seq<UserView>, receiver: Seq<char>, name: Seq<char>) -> Option<
    UserView,
>
    decreases list.len(),
{
    if list.len() == 0 {
        None
    } else if list.last().receiver == receiver && list.last().name == name {
        Some(list.last())
    } else {
        user_method(list.drop_last(), receiver, name)
    }
}

/// Finds a method that a program declares.
pub fn find_method<'a>(list: &'a Vec<UserMethod>, receiver: &String, name: &String) -> (r: Option<
    &'a UserMethod,
>)
    ensures
        match r {
            Some(method) => user_method(user_views(list@), receiver@, name@) == Some(method@),
            None => user_method(user_views(list@), receiver@, name@) is None,
        },
{
    let ghost all = user_views(list@);
    let mut left: usize = list.len();
    assert(all.take(left as int) =~= all);
    while left > 0
        invariant
            left <= list.len(),
            all == user_views(list@),
            user_method(all, receiver@, name@) == user_method(
                all.take(left as int),
                receiver@,
                name@,
            ),
        decreases left,
    {
        proof {
            assert(all.take(left as int).drop_last() =~= all.take(left - 1));
            assert(all.take(left as int).last() == all[left - 1]);
        }
        left -= 1;
        if list[left].receiver == *receiver && list[left].name == *name {
            return Some(&list[left]);
        }
    }
    None
}

/// What another part of the analysis found out: a value, or a diagnostic.
#[derive(Debug)]
pub struct Answer<T> {
    pub result: AliasResult<T>,
}

impl<T: View> View for Answer<T> {
    type V = Result<T::V, ErrorView>;

    open spec fn view(&self) -> Result<T::V, ErrorView> {
        match self.result {
            Ok(value) => Ok(value@),
            Err(error) => Err(error@),
        }
    }
}

/// The type of a function literal, and the variables of its parameters.
#[derive(Debug)]
pub struct FunctionAnswer {
    pub ty: Ty,
    pub ids: Vec<BindingId>,
}

pub struct FunctionAnswerView {
    pub ty: TyView,
    pub ids: Seq<BindingId>,
}

impl View for FunctionAnswer {
    type V = FunctionAnswerView;

    open spec fn view(&self) -> FunctionAnswerView {
        FunctionAnswerView { ty: self.ty@, ids: self.ids@ }
    }
}

/// The names that the statements of a block declare, and whether the block ends in a return.
#[derive(Debug)]
pub struct BlockAnswer {
    pub names: Scope,
    pub terminates: bool,
}

pub struct BlockAnswerView {
    pub names: Seq<(Seq<char>, VarView)>,
    pub terminates: bool,
}

impl View for BlockAnswer {
    type V = BlockAnswerView;

    open spec fn view(&self) -> BlockAnswerView {
        BlockAnswerView { names: self.names@, terminates: self.terminates }
    }
}

/// What the checking of an expression rests on.
pub struct Context {
    pub structs: Structs,
    pub methods: Vec<UserMethod>,
    /// What the innermost function returns.
    pub fn_ret: Option<Ty>,
    /// The variables that are aliases.
    pub borrowed: IdSet,
    /// The types that are written down, by their places.
    pub slots: Table<Answer<Ty>>,
    /// The function literals, by their nodes.
    pub functions: Table<Answer<FunctionAnswer>>,
    /// The blocks and returns in the arms of matches, by the arms.
    pub blocks: Table<Answer<BlockAnswer>>,
    /// The places that expressions name, by their nodes.
    pub places: Table<Answer<LowerPlaceInfo>>,
    /// Whether the places can be written.
    pub writable: Table<Answer<bool>>,
    /// The built-in methods that calls mean, by the calls.
    pub builtins: Table<MethodSig>,
}

pub struct ContextView {
    pub structs: Seq<(Seq<char>, Seq<FieldInfoView>)>,
    pub types: Map<Seq<char>, Seq<TyView>>,
    pub methods: Seq<UserView>,
    pub fn_ret: Option<TyView>,
    pub borrowed: Set<BindingId>,
    pub slots: Map<u32, Result<TyView, ErrorView>>,
    pub functions: Map<u32, Result<FunctionAnswerView, ErrorView>>,
    pub blocks: Map<u32, Result<BlockAnswerView, ErrorView>>,
    pub places: Map<u32, Result<PlaceFact, ErrorView>>,
    pub writable: Map<u32, Result<bool, ErrorView>>,
    pub builtins: Map<u32, SigView>,
}

impl View for Context {
    type V = ContextView;

    open spec fn view(&self) -> ContextView {
        ContextView {
            structs: struct_views(self.structs.defs@),
            types: self.structs.types@,
            methods: user_views(self.methods@),
            fn_ret: maybe_view(self.fn_ret),
            borrowed: self.borrowed@,
            slots: self.slots@,
            functions: self.functions@,
            blocks: self.blocks@,
            places: self.places@,
            writable: self.writable@,
            builtins: self.builtins@,
        }
    }
}

impl View for PointerViewSource {
    type V = PointerViewSource;

    open spec fn view(&self) -> PointerViewSource {
        *self
    }
}

/// What type checking records about nodes.
pub struct Notes {
    pub exprs: Table<LowerExprInfo>,
    pub expr_binding_ids: Table<BindingId>,
    pub field_indices: Table<usize>,
    pub ctor_arg_indices: Table<usize>,
    pub match_binding_ids: Table<BindingId>,
    pub params: Table<Ty>,
    pub param_ids: Table<BindingId>,
    pub move_places: Table<LowerPlaceInfo>,
    pub borrow_places: Table<LowerBorrowInfo>,
    pub owning_reads: Table<LowerOwningReadInfo>,
    pub pointer_views: Table<PointerViewSource>,
    pub next_binding: u32,
    pub next_loan: u32,
}

pub struct NotesMap {
    pub exprs: Map<u32, ExprFact>,
    pub expr_binding_ids: Map<u32, BindingId>,
    pub field_indices: Map<u32, usize>,
    pub ctor_arg_indices: Map<u32, usize>,
    pub match_binding_ids: Map<u32, BindingId>,
    pub params: Map<u32, TyView>,
    pub param_ids: Map<u32, BindingId>,
    pub move_places: Map<u32, PlaceFact>,
    pub borrow_places: Map<u32, BorrowFact>,
    pub owning_reads: Map<u32, ReadFact>,
    pub pointer_views: Map<u32, PointerViewSource>,
    pub next_binding: u32,
    pub next_loan: u32,
}

impl View for Notes {
    type V = NotesMap;

    open spec fn view(&self) -> NotesMap {
        NotesMap {
            exprs: self.exprs@,
            expr_binding_ids: self.expr_binding_ids@,
            field_indices: self.field_indices@,
            ctor_arg_indices: self.ctor_arg_indices@,
            match_binding_ids: self.match_binding_ids@,
            params: self.params@,
            param_ids: self.param_ids@,
            move_places: self.move_places@,
            borrow_places: self.borrow_places@,
            owning_reads: self.owning_reads@,
            pointer_views: self.pointer_views@,
            next_binding: self.next_binding,
            next_loan: self.next_loan,
        }
    }
}

pub open spec fn note_type(notes: NotesMap, id: u32, ty: TyView) -> NotesMap {
    let fact = match found(notes.exprs, id) {
        Some(fact) => ExprFact { ty, ..fact },
        None => ExprFact { ty, call_target: None, implicit_zero_callee: None },
    };
    NotesMap { exprs: notes.exprs.insert(id, fact), ..notes }
}

pub open spec fn note_target(notes: NotesMap, id: u32, target: TargetView) -> NotesMap {
    let fact = match found(notes.exprs, id) {
        Some(fact) => ExprFact { call_target: Some(target), ..fact },
        None => ExprFact {
            ty: TyView::Unknown,
            call_target: Some(target),
            implicit_zero_callee: None,
        },
    };
    NotesMap { exprs: notes.exprs.insert(id, fact), ..notes }
}

pub open spec fn note_implicit(notes: NotesMap, id: u32, callee: TyView, result: TyView) -> NotesMap {
    NotesMap {
        exprs: notes.exprs.insert(
            id,
            ExprFact {
                ty: result,
                call_target: Some(TargetView::FunctionValue),
                implicit_zero_callee: Some(callee),
            },
        ),
        ..notes
    }
}

/// The number below a minus sign has the type of the whole literal.
pub open spec fn note_literal(notes: NotesMap, e: ast::Expr, ty: TyView) -> NotesMap {
    match e.kind {
        ast::ExprKind::Neg { expr } => if expr.kind is Int {
            note_type(notes, expr.id, ty)
        } else {
            notes
        },
        _ => notes,
    }
}

pub open spec fn noted_type(notes: NotesMap, id: u32) -> TyView {
    match found(notes.exprs, id) {
        Some(fact) => fact.ty,
        None => TyView::Unknown,
    }
}

pub open spec fn plain_function(params: Seq<TyView>, ret: TyView) -> TyView {
    TyView::Func { params, param_effects: None, ret: Box::new(ret), return_effect: None }
}

/// The name before the brackets of a call that is no call of a function value has the type that
/// the call needs.
pub open spec fn note_callee(notes: NotesMap, e: ast::Expr, result: TyView) -> NotesMap {
    match e.kind {
        ast::ExprKind::Call { callee, args } => match found(notes.exprs, e.id) {
            Some(ExprFact { call_target: Some(target), .. }) => if target
                == TargetView::FunctionValue {
                notes
            } else {
                note_type(
                    notes,
                    callee.id,
                    plain_function(
                        Seq::new(args@.len(), |i: int| noted_type(notes, args@[i].value.id)),
                        result,
                    ),
                )
            },
            _ => notes,
        },
        _ => notes,
    }
}

impl Notes {
    pub fn record_expr_type(&mut self, id: u32, ty: Ty)
        ensures
            final(self)@ == note_type(old(self)@, id, ty@),
    {
        match self.exprs.take(id) {
            Some(info) => {
                let LowerExprInfo { call_target, implicit_zero_callee, .. } = info;
                self.exprs.insert(id, LowerExprInfo { ty, call_target, implicit_zero_callee });
            },
            None => {
                self.exprs.insert(
                    id,
                    LowerExprInfo { ty, call_target: None, implicit_zero_callee: None },
                );
            },
        }
        assert(self@.exprs =~= note_type(old(self)@, id, ty@).exprs);
    }

    pub fn record_call_target(&mut self, id: u32, target: LowerCallTarget)
        ensures
            final(self)@ == note_target(old(self)@, id, target@),
    {
        match self.exprs.take(id) {
            Some(info) => {
                let LowerExprInfo { ty, implicit_zero_callee, .. } = info;
                self.exprs.insert(
                    id,
                    LowerExprInfo { ty, call_target: Some(target), implicit_zero_callee },
                );
            },
            None => {
                self.exprs.insert(
                    id,
                    LowerExprInfo {
                        ty: Ty::Unknown,
                        call_target: Some(target),
                        implicit_zero_callee: None,
                    },
                );
            },
        }
        assert(self@.exprs =~= note_target(old(self)@, id, target@).exprs);
    }

    pub fn record_implicit_zero_call(&mut self, id: u32, callee_ty: Ty, result_ty: Ty)
        ensures
            final(self)@ == note_implicit(old(self)@, id, callee_ty@, result_ty@),
    {
        self.exprs.insert(
            id,
            LowerExprInfo {
                ty: result_ty,
                call_target: Some(LowerCallTarget::FunctionValue),
                implicit_zero_callee: Some(callee_ty),
            },
        );
    }

    pub fn record_literal_components(&mut self, e: &ast::Expr, ty: &Ty)
        ensures
            final(self)@ == note_literal(old(self)@, *e, ty@),
    {
        if let ast::ExprKind::Neg { expr } = &e.kind {
            if let ast::ExprKind::Int(_) = &expr.kind {
                self.record_expr_type(expr.id, ty.clone());
            }
        }
    }

    pub fn type_of(&self, id: u32) -> (r: Ty)
        ensures
            r@ == noted_type(self@, id),
    {
        match self.exprs.get(id) {
            Some(info) => info.ty.clone(),
            None => Ty::Unknown,
        }
    }

    pub fn record_resolved_callee(&mut self, e: &ast::Expr, result: &Ty)
        ensures
            final(self)@ == note_callee(old(self)@, *e, result@),
    {
        let (callee, args) = match &e.kind {
            ast::ExprKind::Call { callee, args } => (callee, args),
            _ => {
                return;
            },
        };
        match self.exprs.get(e.id) {
            Some(info) => match &info.call_target {
                None | Some(LowerCallTarget::FunctionValue) => {
                    return;
                },
                _ => {},
            },
            None => {
                return;
            },
        }
        let mut params: Vec<Ty> = Vec::new();
        let mut i: usize = 0;
        while i < args.len()
            invariant
                i <= args.len(),
                params@.len() == i,
                forall|k: int|
                    0 <= k < i ==> (#[trigger] params@[k])@ == noted_type(
                        self@,
                        args@[k].value.id,
                    ),
            decreases args.len() - i,
        {
            params.push(self.type_of(args[i].value.id));
            i += 1;
        }
        let ty = Ty::Func {
            params,
            param_effects: None,
            ret: Box::new(result.clone()),
            return_effect: None,
        };
        proof {
            let wanted = plain_function(
                Seq::new(args@.len(), |i: int| noted_type(self@, args@[i].value.id)),
                result@,
            );
            assert(ty@->Func_params =~= wanted->Func_params);
            assert(ty@ == wanted);
        }
        self.record_expr_type(callee.id, ty);
    }
}

pub open spec fn unanswered(span: Span) -> ErrorView {
    broken_at(span, "检查结果缺失"@)
}

/// What was found out about a node, or why it was not.
pub open spec fn answer<V>(table: Map<u32, Result<V, ErrorView>>, id: u32, span: Span) -> Result<
    V,
    ErrorView,
> {
    match found(table, id) {
        Some(result) => result,
        None => Err(unanswered(span)),
    }
}

pub fn ask<'a, T: View>(table: &'a Table<Answer<T>>, id: u32, span: Span) -> (r: AliasResult<&'a T>)
    ensures
        match answer(table@, id, span) {
            Ok(value) => r matches Ok(found) && found@ == value,
            Err(error) => fault_of(r) == Some(error),
        },
{
    match table.get(id) {
        None => Err(broken_invariant(span, "检查结果缺失")),
        Some(answer) => match &answer.result {
            Ok(value) => Ok(value),
            Err(error) => Err(copy_error(error)),
        },
    }
}

} // verus!
