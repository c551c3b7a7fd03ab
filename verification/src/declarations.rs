//! The structs, the methods and the entry of a program.

use crate::ast;
use crate::checker_state::{
    Context, ContextView, ExprCheckError, FaultView, FieldInfo, FieldInfoView, Notes, NotesMap,
    Scope, UserMethod, UserView, alias_of, answer, ask, field_at, find_field, find_method, in_scope,
    info_views, note_type, struct_in, struct_views, user_method, user_views,
};
use crate::diagnostics::{error2, error3, error4, error5, error6};
use crate::facts::{Table, found};
use crate::typed::{
    Env, call_builtin, noted_params, ownership_builtin, result_constructor, typed_expected,
};
use crate::types::{
    AliasError, AliasResult, BindingId, ErrorView, IntW, MethodId, Span, Ty, TyView, broken_at,
    broken_invariant, error, fault_of, no_span, told, ty_name, ty_views,
};
use crate::typing::{
    classify_call_builtin, classify_ownership_builtin, classify_result_constructor, expr_expected,
    lemma_function_view, record_params,
};
use vstd::prelude::*;

verus! {

/// A name that every program can use, and none can declare.
pub open spec fn is_reserved(name: Seq<char>) -> bool {
    call_builtin(name) is Some || ownership_builtin(name) is Some || result_constructor(name)
        is Some
}

pub open spec fn reserved_fault(name: Seq<char>, span: Span) -> Option<ErrorView> {
    if is_reserved(name) {
        Some(told(span, "'"@ + name + "' 是预定义名字, 不能重新定义"@))
    } else {
        None
    }
}

/// Checks that a name can be declared.
pub fn ensure_user_lexical_name(name: &String, span: Span) -> (r: AliasResult<()>)
    ensures
        fault_of(r) == reserved_fault(name@, span),
{
    if classify_call_builtin(name).is_some() || classify_ownership_builtin(name).is_some()
        || classify_result_constructor(name).is_some() {
        return Err(error3(span, "'", name.as_str(), "' 是预定义名字, 不能重新定义"));
    }
    Ok(())
}

/// What is recorded about declarations.
pub struct DeclNotes {
    pub fields: Table<Ty>,
    pub receivers: Table<Ty>,
    pub method_ids: Table<MethodId>,
    pub method_self_ids: Table<BindingId>,
    pub bindings: Table<Ty>,
    pub next_method: u32,
}

pub struct DeclMap {
    pub fields: Map<u32, TyView>,
    pub receivers: Map<u32, TyView>,
    pub method_ids: Map<u32, MethodId>,
    pub method_self_ids: Map<u32, BindingId>,
    pub bindings: Map<u32, TyView>,
    pub next_method: u32,
}

impl View for DeclNotes {
    type V = DeclMap;

    open spec fn view(&self) -> DeclMap {
        DeclMap {
            fields: self.fields@,
            receivers: self.receivers@,
            method_ids: self.method_ids@,
            method_self_ids: self.method_self_ids@,
            bindings: self.bindings@,
            next_method: self.next_method,
        }
    }
}

pub open spec fn default_fault(name: Seq<char>, ty: TyView, fault: FaultView) -> ErrorView {
    match fault {
        FaultView::Mismatch { actual, span, .. } => told(
            span,
            "字段 '"@ + name + "' 声明类型为 "@ + ty_name(ty) + ", 实际 "@ + ty_name(actual),
        ),
        _ => alias_of(fault),
    }
}

/// A struct that is being declared.
pub struct FieldState {
    pub fields: Seq<FieldInfoView>,
    pub decls: DeclMap,
    pub notes: NotesMap,
}

/// One more field of a struct.
pub open spec fn declared_field(
    cx: ContextView,
    owner: Seq<char>,
    field: ast::StructField,
    env: Env,
    state: FieldState,
) -> Result<FieldState, ErrorView> {
    if field_at(state.fields, field.name@, 0) is Some {
        Err(
            told(
                field.span,
                "结构体 "@ + owner + " 重复定义字段 '"@ + field.name@ + "'"@,
            ),
        )
    } else {
        match answer(cx.slots, field.ty.id, field.span) {
            Err(error) => Err(error),
            Ok(ty) => {
                let decls = DeclMap {
                    fields: state.decls.fields.insert(field.id, ty),
                    ..state.decls
                };
                let fields = state.fields.push(
                    FieldInfoView {
                        name: field.name@,
                        mutable: field.mutable,
                        ty,
                        has_default: field.default is Some,
                    },
                );
                match field.default {
                    None => Ok(FieldState { fields, decls, notes: state.notes }),
                    Some(value) => match typed_expected(cx, value, env, ty, state.notes) {
                        Err(fault) => Err(default_fault(field.name@, ty, fault)),
                        Ok((_, notes)) => Ok(FieldState { fields, decls, notes }),
                    },
                }
            },
        }
    }
}

pub open spec fn declared_fields(
    cx: ContextView,
    owner: Seq<char>,
    fields: Seq<ast::StructField>,
    env: Env,
    decls: DeclMap,
    notes: NotesMap,
    upto: nat,
) -> Result<FieldState, ErrorView>
    decreases upto,
{
    if upto == 0 {
        Ok(FieldState { fields: Seq::empty(), decls, notes })
    } else {
        match declared_fields(cx, owner, fields, env, decls, notes, (upto - 1) as nat) {
            Err(error) => Err(error),
            Ok(state) => declared_field(cx, owner, fields[upto - 1], env, state),
        }
    }
}

proof fn lemma_fields_stop(
    cx: ContextView,
    owner: Seq<char>,
    fields: Seq<ast::StructField>,
    env: Env,
    decls: DeclMap,
    notes: NotesMap,
    at: nat,
    upto: nat,
)
    requires
        at <= upto,
        declared_fields(cx, owner, fields, env, decls, notes, at) is Err,
    ensures
        declared_fields(cx, owner, fields, env, decls, notes, upto) == declared_fields(
            cx,
            owner,
            fields,
            env,
            decls,
            notes,
            at,
        ),
    decreases upto - at,
{
    if at < upto {
        lemma_fields_stop(cx, owner, fields, env, decls, notes, at, (upto - 1) as nat);
    }
}

/// What the declaration of a struct comes to: its fields, and what is recorded.
pub open spec fn declared_struct(
    cx: ContextView,
    def: ast::StructDef,
    env: Env,
    decls: DeclMap,
    notes: NotesMap,
) -> Result<FieldState, ErrorView> {
    match reserved_fault(def.name@, def.span) {
        Some(error) => Err(error),
        None => if struct_in(cx.structs, def.name@) is Some {
            Err(told(def.span, "'"@ + def.name@ + "' 已定义为结构体, 不能重复定义"@))
        } else if in_scope(env, def.name@) is Some {
            Err(
                told(def.span, "'"@ + def.name@ + "' 已定义为绑定, 不能再定义为结构体"@),
            )
        } else {
            declared_fields(cx, def.name@, def.fields@, env, decls, notes, def.fields@.len())
        },
    }
}

fn default_error(name: &String, ty: &Ty, fault: ExprCheckError) -> (r: AliasError)
    ensures
        r@ == default_fault(name@, ty@, fault@),
{
    match fault {
        ExprCheckError::Mismatch { actual, span, .. } => error6(
            span,
            "字段 '",
            name.as_str(),
            "' 声明类型为 ",
            ty.name().as_str(),
            ", 实际 ",
            actual.name().as_str(),
        ),
        other => other.into_alias(),
    }
}

fn declare_field(
    cx: &Context,
    owner: &String,
    field: &ast::StructField,
    env: &Scope,
    fields: &mut Vec<FieldInfo>,
    decls: &mut DeclNotes,
    notes: &mut Notes,
) -> (r: AliasResult<()>)
    ensures
        match declared_field(
            cx@,
            owner@,
            *field,
            env@,
            FieldState { fields: info_views(old(fields)@), decls: old(decls)@, notes: old(notes)@ },
        ) {
            Ok(state) => r is Ok && info_views(final(fields)@) == state.fields && final(decls)@
                == state.decls && final(notes)@ == state.notes,
            Err(error) => fault_of(r) == Some(error),
        },
{
    if find_field(fields, &field.name).is_some() {
        return Err(
            error5(
                field.span,
                "结构体 ",
                owner.as_str(),
                " 重复定义字段 '",
                field.name.as_str(),
                "'",
            ),
        );
    }
    let ty = match ask(&cx.slots, field.ty.id, field.span) {
        Ok(ty) => ty,
        Err(error) => {
            return Err(error);
        },
    };
    decls.fields.insert(field.id, ty.clone());
    if let Some(value) = &field.default {
        match expr_expected(cx, value, env, ty, notes) {
            Ok(_) => {},
            Err(fault) => {
                return Err(default_error(&field.name, ty, fault));
            },
        }
    }
    let ghost before = fields@;
    let info = FieldInfo {
        name: field.name.clone(),
        mutable: field.mutable,
        ty: ty.clone(),
        has_default: field.default.is_some(),
    };
    let ghost view = info@;
    fields.push(info);
    assert(info_views(fields@) =~= info_views(before).push(view));
    Ok(())
}

fn field_types(fields: &Vec<FieldInfo>) -> (r: Vec<Ty>)
    ensures
        ty_views(r@) == Seq::new(fields@.len(), |i: int| fields@[i].ty@),
{
    let mut types: Vec<Ty> = Vec::new();
    let mut i: usize = 0;
    while i < fields.len()
        invariant
            i <= fields.len(),
            types@.len() == i,
            forall|k: int| 0 <= k < i ==> (#[trigger] types@[k])@ == fields@[k].ty@,
        decreases fields.len() - i,
    {
        types.push(fields[i].ty.clone());
        i += 1;
    }
    assert(ty_views(types@) =~= Seq::new(fields@.len(), |i: int| fields@[i].ty@));
    types
}

/// Declares a struct.
pub fn struct_def(
    cx: &mut Context,
    def: &ast::StructDef,
    env: &Scope,
    decls: &mut DeclNotes,
    notes: &mut Notes,
) -> (r: AliasResult<()>)
    ensures
        match declared_struct(old(cx)@, *def, env@, old(decls)@, old(notes)@) {
            Ok(state) => {
                &&& r is Ok
                &&& final(decls)@ == state.decls
                &&& final(notes)@ == state.notes
                &&& final(cx)@ == (ContextView {
                    structs: old(cx)@.structs.push((def.name@, state.fields)),
                    types: old(cx)@.types.insert(
                        def.name@,
                        Seq::new(state.fields.len(), |i: int| state.fields[i].ty),
                    ),
                    ..old(cx)@
                })
            },
            Err(error) => fault_of(r) == Some(error) && final(cx)@ == old(cx)@,
        },
{
    match ensure_user_lexical_name(&def.name, def.span) {
        Ok(()) => {},
        Err(error) => {
            return Err(error);
        },
    }
    if cx.structs.get(&def.name).is_some() {
        return Err(
            error3(def.span, "'", def.name.as_str(), "' 已定义为结构体, 不能重复定义"),
        );
    }
    if env.get(&def.name).is_some() {
        return Err(
            error3(def.span, "'", def.name.as_str(), "' 已定义为绑定, 不能再定义为结构体"),
        );
    }
    let ghost d0 = decls@;
    let ghost n0 = notes@;
    let ghost c0 = cx@;
    let mut fields: Vec<FieldInfo> = Vec::new();
    let mut i: usize = 0;
    assert(info_views(fields@) =~= Seq::empty());
    while i < def.fields.len()
        invariant
            i <= def.fields.len(),
            d0 == old(decls)@,
            n0 == old(notes)@,
            c0 == old(cx)@,
            cx@ == c0,
            declared_struct(c0, *def, env@, d0, n0) == declared_fields(
                c0,
                def.name@,
                def.fields@,
                env@,
                d0,
                n0,
                def.fields@.len(),
            ),
            declared_fields(c0, def.name@, def.fields@, env@, d0, n0, i as nat) == Ok::<
                FieldState,
                ErrorView,
            >(FieldState { fields: info_views(fields@), decls: decls@, notes: notes@ }),
        decreases def.fields.len() - i,
    {
        match declare_field(cx, &def.name, &def.fields[i], env, &mut fields, decls, notes) {
            Ok(()) => {},
            Err(error) => {
                proof {
                    lemma_fields_stop(
                        c0,
                        def.name@,
                        def.fields@,
                        env@,
                        d0,
                        n0,
                        (i + 1) as nat,
                        def.fields@.len(),
                    );
                }
                return Err(error);
            },
        }
        i += 1;
    }
    let types = field_types(&fields);
    let ghost defs = cx.structs.defs@;
    let ghost views = info_views(fields@);
    proof {
        assert(ty_views(types@) =~= Seq::new(views.len(), |i: int| views[i].ty));
    }
    cx.structs.types.insert(def.name.clone(), types);
    cx.structs.defs.push((def.name.clone(), fields));
    assert(struct_views(cx.structs.defs@) =~= struct_views(defs).push((def.name@, views)));
    Ok(())
}

/// The types of the parameters that are written down.
pub open spec fn declared_params(
    cx: ContextView,
    params: Seq<ast::Param>,
    upto: nat,
) -> Result<Seq<TyView>, ErrorView>
    decreases upto,
{
    if upto == 0 {
        Ok(Seq::empty())
    } else {
        match declared_params(cx, params, (upto - 1) as nat) {
            Err(error) => Err(error),
            Ok(list) => {
                let param = params[upto - 1];
                match reserved_fault(param.name@, param.span) {
                    Some(error) => Err(error),
                    None => match answer(cx.slots, param.ty.id, param.span) {
                        Err(error) => Err(error),
                        Ok(ty) => Ok(list.push(ty)),
                    },
                }
            },
        }
    }
}

proof fn lemma_params_stop(cx: ContextView, params: Seq<ast::Param>, at: nat, upto: nat)
    requires
        at <= upto,
        declared_params(cx, params, at) is Err,
    ensures
        declared_params(cx, params, upto) == declared_params(cx, params, at),
    decreases upto - at,
{
    if at < upto {
        lemma_params_stop(cx, params, at, (upto - 1) as nat);
    }
}

fn declare_params(cx: &Context, params: &Vec<ast::Param>) -> (r: AliasResult<Vec<Ty>>)
    ensures
        match declared_params(cx@, params@, params@.len()) {
            Ok(list) => r matches Ok(types) && ty_views(types@) == list,
            Err(error) => fault_of(r) == Some(error),
        },
{
    let mut types: Vec<Ty> = Vec::new();
    let mut i: usize = 0;
    assert(ty_views(types@) =~= Seq::empty());
    while i < params.len()
        invariant
            i <= params.len(),
            declared_params(cx@, params@, i as nat) == Ok::<Seq<TyView>, ErrorView>(
                ty_views(types@),
            ),
        decreases params.len() - i,
    {
        let param = &params[i];
        let ghost before = types@;
        match ensure_user_lexical_name(&param.name, param.span) {
            Ok(()) => {},
            Err(error) => {
                proof {
                    lemma_params_stop(cx@, params@, (i + 1) as nat, params@.len());
                }
                return Err(error);
            },
        }
        match ask(&cx.slots, param.ty.id, param.span) {
            Ok(ty) => {
                types.push(ty.clone());
                assert(ty_views(types@) =~= ty_views(before).push(ty@));
            },
            Err(error) => {
                proof {
                    lemma_params_stop(cx@, params@, (i + 1) as nat, params@.len());
                }
                return Err(error);
            },
        }
        i += 1;
    }
    Ok(types)
}

/// What the declaration of a method leaves behind, and what is wrong with it.
pub struct MethodState {
    pub methods: Seq<UserView>,
    pub decls: DeclMap,
    pub notes: NotesMap,
    pub fault: Option<ErrorView>,
}

/// The type that a method belongs to.
pub open spec fn declared_receiver(cx: ContextView, b: ast::Binding) -> Result<TyView, ErrorView> {
    match b.receiver {
        None => Err(told(b.span, "内部: 无接收者的方法定义"@)),
        Some(slot) => answer(cx.slots, slot.id, b.span),
    }
}

/// The signature of a method, before its body is looked at.
pub open spec fn declared_signature(
    cx: ContextView,
    b: ast::Binding,
    recv: TyView,
    next_method: u32,
) -> Result<UserView, ErrorView> {
    if found(cx.builtins, b.id) is Some {
        Err(told(b.span, "内建方法不可覆盖: "@ + ty_name(recv) + "."@ + b.name@))
    } else {
        match answer(cx.slots, b.ty.id, b.span) {
            Err(error) => Err(error),
            Ok(ret) => match b.value.kind {
                ast::ExprKind::FuncLit { params, .. } => match declared_params(
                    cx,
                    params@,
                    params@.len(),
                ) {
                    Err(error) => Err(error),
                    Ok(types) => if user_method(cx.methods, ty_name(recv), b.name@) is Some {
                        Err(
                            told(
                                b.span,
                                "类型 "@ + ty_name(recv) + " 上已定义方法 '"@ + b.name@ + "'"@,
                            ),
                        )
                    } else if next_method == u32::MAX {
                        Err(told(b.span, "MethodId 数量超过编译器上限"@))
                    } else {
                        Ok(
                            UserView {
                                receiver: ty_name(recv),
                                name: b.name@,
                                id: MethodId(next_method),
                                params: types,
                                ret,
                            },
                        )
                    },
                },
                _ => Err(
                    told(
                        b.span,
                        "方法 "@ + ty_name(recv) + "."@ + b.name@ + " 的体必须是函数字面量"@,
                    ),
                ),
            },
        }
    }
}

/// What the body of a method that is known by its signature comes to. Its function literal, with
/// the receiver as the first parameter, has been looked at elsewhere.
pub open spec fn declared_body(
    cx: ContextView,
    b: ast::Binding,
    count: nat,
    state: MethodState,
) -> MethodState {
    match answer(cx.functions, b.value.id, b.value.span) {
        Err(error) => MethodState { fault: Some(error), ..state },
        Ok(found) => match found.ty {
            TyView::Func { params: types, .. } => if found.ids.len() == 0 {
                MethodState {
                    fault: Some(broken_at(b.value.span, "方法缺少隐式 self 参数"@)),
                    ..state
                }
            } else {
                let known = DeclMap {
                    method_self_ids: state.decls.method_self_ids.insert(b.id, found.ids[0]),
                    ..state.decls
                };
                if types.len() != count + 1 || found.ids.len() != count + 1 {
                    MethodState {
                        decls: known,
                        fault: Some(broken_at(b.value.span, "函数参数 fact 数量不一致"@)),
                        ..state
                    }
                } else {
                    MethodState {
                        decls: DeclMap {
                            bindings: known.bindings.insert(b.id, found.ty),
                            ..known
                        },
                        notes: note_type(
                            noted_params(
                                b.value.kind->FuncLit_params@,
                                types.skip(1),
                                found.ids.skip(1),
                                state.notes,
                                count,
                            ),
                            b.value.id,
                            found.ty,
                        ),
                        ..state
                    }
                }
            },
            _ => MethodState {
                fault: Some(broken_at(b.value.span, "funclit 未产生函数类型"@)),
                ..state
            },
        },
    }
}

/// What the declaration of a method comes to. The method is known from its signature on, also
/// where its body turns out to be wrong.
pub open spec fn declared_method(
    cx: ContextView,
    b: ast::Binding,
    decls: DeclMap,
    notes: NotesMap,
) -> MethodState {
    let start = MethodState { methods: cx.methods, decls, notes, fault: None };
    match declared_receiver(cx, b) {
        Err(error) => MethodState { fault: Some(error), ..start },
        Ok(recv) => {
            let received = DeclMap { receivers: decls.receivers.insert(b.id, recv), ..decls };
            match declared_signature(cx, b, recv, decls.next_method) {
                Err(error) => MethodState { decls: received, fault: Some(error), ..start },
                Ok(method) => declared_body(
                    cx,
                    b,
                    method.params.len(),
                    MethodState {
                        methods: cx.methods.push(method),
                        decls: DeclMap {
                            method_ids: decls.method_ids.insert(b.id, method.id),
                            next_method: (decls.next_method + 1) as u32,
                            ..received
                        },
                        ..start
                    },
                ),
            }
        },
    }
}

fn receiver_of(cx: &Context, b: &ast::Binding) -> (r: AliasResult<Ty>)
    ensures
        match declared_receiver(cx@, *b) {
            Ok(recv) => r matches Ok(ty) && ty@ == recv,
            Err(error) => fault_of(r) == Some(error),
        },
{
    match &b.receiver {
        Some(slot) => match ask(&cx.slots, slot.id, b.span) {
            Ok(recv) => Ok(recv.clone()),
            Err(error) => Err(error),
        },
        None => Err(error(b.span, "内部: 无接收者的方法定义")),
    }
}

fn method_of(cx: &Context, b: &ast::Binding, recv: &Ty, next_method: u32) -> (r: AliasResult<
    UserMethod,
>)
    ensures
        match declared_signature(cx@, *b, recv@, next_method) {
            Ok(method) => r matches Ok(made) && made@ == method,
            Err(error) => fault_of(r) == Some(error),
        },
{
    if cx.builtins.get(b.id).is_some() {
        return Err(
            error4(
                b.span,
                "内建方法不可覆盖: ",
                recv.name().as_str(),
                ".",
                b.name.as_str(),
            ),
        );
    }
    let ret = match ask(&cx.slots, b.ty.id, b.span) {
        Ok(ret) => ret,
        Err(error) => {
            return Err(error);
        },
    };
    let params = match &b.value.kind {
        ast::ExprKind::FuncLit { params, .. } => params,
        _ => {
            return Err(
                error5(
                    b.span,
                    "方法 ",
                    recv.name().as_str(),
                    ".",
                    b.name.as_str(),
                    " 的体必须是函数字面量",
                ),
            );
        },
    };
    let types = match declare_params(cx, params) {
        Ok(types) => types,
        Err(error) => {
            return Err(error);
        },
    };
    let receiver = recv.name();
    if find_method(&cx.methods, &receiver, &b.name).is_some() {
        return Err(
            error5(
                b.span,
                "类型 ",
                receiver.as_str(),
                " 上已定义方法 '",
                b.name.as_str(),
                "'",
            ),
        );
    }
    if next_method == u32::MAX {
        return Err(error(b.span, "MethodId 数量超过编译器上限"));
    }
    Ok(
        UserMethod {
            receiver,
            name: b.name.clone(),
            id: MethodId(next_method),
            params: types,
            ret: ret.clone(),
        },
    )
}

proof fn lemma_params_len(cx: ContextView, params: Seq<ast::Param>, upto: nat)
    ensures
        declared_params(cx, params, upto) matches Ok(list) ==> list.len() == upto,
    decreases upto,
{
    if upto > 0 {
        lemma_params_len(cx, params, (upto - 1) as nat);
    }
}

fn check_body(
    cx: &Context,
    b: &ast::Binding,
    count: usize,
    decls: &mut DeclNotes,
    notes: &mut Notes,
) -> (r: AliasResult<()>)
    requires
        b.value.kind is FuncLit,
        b.value.kind->FuncLit_params@.len() == count,
    ensures
        ({
            let state = declared_body(
                cx@,
                *b,
                count as nat,
                MethodState {
                    methods: cx@.methods,
                    decls: old(decls)@,
                    notes: old(notes)@,
                    fault: None,
                },
            );
            fault_of(r) == state.fault && final(decls)@ == state.decls && final(notes)@
                == state.notes
        }),
{
    let found = match ask(&cx.functions, b.value.id, b.value.span) {
        Ok(found) => found,
        Err(error) => {
            return Err(error);
        },
    };
    proof {
        lemma_function_view(found.ty);
    }
    let types = match &found.ty {
        Ty::Func { params, .. } => params,
        _ => {
            return Err(broken_invariant(b.value.span, "funclit 未产生函数类型"));
        },
    };
    if found.ids.len() == 0 {
        return Err(broken_invariant(b.value.span, "方法缺少隐式 self 参数"));
    }
    decls.method_self_ids.insert(b.id, found.ids[0]);
    if types.len() == 0 || types.len() - 1 != count || found.ids.len() - 1 != count {
        return Err(broken_invariant(b.value.span, "函数参数 fact 数量不一致"));
    }
    if let ast::ExprKind::FuncLit { params, .. } = &b.value.kind {
        record_params(params, types, &found.ids, 1, notes);
        notes.record_expr_type(b.value.id, found.ty.clone());
        decls.bindings.insert(b.id, found.ty.clone());
    }
    Ok(())
}

/// Declares a method.
pub fn method_def(
    cx: &mut Context,
    b: &ast::Binding,
    decls: &mut DeclNotes,
    notes: &mut Notes,
) -> (r: AliasResult<()>)
    ensures
        ({
            let state = declared_method(old(cx)@, *b, old(decls)@, old(notes)@);
            &&& fault_of(r) == state.fault
            &&& final(decls)@ == state.decls
            &&& final(notes)@ == state.notes
            &&& final(cx)@ == (ContextView { methods: state.methods, ..old(cx)@ })
        }),
{
    let recv = match receiver_of(cx, b) {
        Ok(recv) => recv,
        Err(error) => {
            return Err(error);
        },
    };
    let next_method = decls.next_method;
    let made = method_of(cx, b, &recv, next_method);
    decls.receivers.insert(b.id, recv);
    let method = match made {
        Ok(method) => method,
        Err(error) => {
            return Err(error);
        },
    };
    let count = method.params.len();
    decls.method_ids.insert(b.id, method.id);
    decls.next_method = next_method + 1;
    let ghost methods = cx.methods@;
    let ghost view = method@;
    cx.methods.push(method);
    proof {
        assert(user_views(cx.methods@) =~= user_views(methods).push(view));
        let params = b.value.kind->FuncLit_params@;
        lemma_params_len(old(cx)@, params, params.len());
        assert(ty_views(method.params@).len() == params.len());
    }
    check_body(cx, b, count, decls, notes)
}

/// What is wrong with the entry of a program: it takes nothing and returns a number of 32 bits.
pub open spec fn main_fault(main: Option<(BindingId, TyView, Span)>) -> Option<ErrorView> {
    match main {
        None => Some(told(no_span(), "找不到顶层 func main"@)),
        Some((_, ty, span)) => match ty {
            TyView::Func { params, ret, .. } => if params.len() != 0 {
                Some(told(span, "顶层 func main 不能声明参数"@))
            } else if *ret == TyView::Int(IntW::W32) {
                None
            } else {
                Some(
                    told(span, "顶层 func main 返回类型必须是 i32, 实际 "@ + ty_name(*ret)),
                )
            },
            _ => Some(
                told(span, "顶层 func main 返回类型必须是 i32, 实际 "@ + ty_name(ty)),
            ),
        },
    }
}

pub open spec fn main_view(main: Option<(BindingId, Ty, Span)>) -> Option<
    (BindingId, TyView, Span),
> {
    match main {
        Some((id, ty, span)) => Some((id, ty@, span)),
        None => None,
    }
}

/// Takes the recorded entry of a program out and checks it. Afterwards none is recorded.
pub fn validate_main(main: &mut Option<(BindingId, Ty, Span)>) -> (r: AliasResult<BindingId>)
    ensures
        *final(main) is None,
        match main_fault(main_view(*old(main))) {
            Some(error) => fault_of(r) == Some(error),
            None => r == Ok::<BindingId, AliasError>((old(main)->0).0),
        },
{
    let (id, ty, span) = match main.take() {
        Some(entry) => entry,
        None => {
            return Err(error(Span::default(), "找不到顶层 func main"));
        },
    };
    proof {
        lemma_function_view(ty);
    }
    match &ty {
        Ty::Func { params, ret, .. } => {
            if params.len() != 0 {
                return Err(error(span, "顶层 func main 不能声明参数"));
            }
            assert((**ret)@ == TyView::Int(IntW::W32) <==> **ret == Ty::Int(IntW::W32));
            if matches!(**ret, Ty::Int(IntW::W32)) {
                Ok(id)
            } else {
                Err(
                    error2(
                        span,
                        "顶层 func main 返回类型必须是 i32, 实际 ",
                        ret.name().as_str(),
                    ),
                )
            }
        },
        _ => Err(
            error2(span, "顶层 func main 返回类型必须是 i32, 实际 ", ty.name().as_str()),
        ),
    }
}

/// A struct that has been declared cannot be declared again.
pub proof fn law_structs_are_declared_once(
    cx: ContextView,
    def: ast::StructDef,
    env: Env,
    decls: DeclMap,
    notes: NotesMap,
    fields: Seq<FieldInfoView>,
)
    ensures
        declared_struct(
            ContextView { structs: cx.structs.push((def.name@, fields)), ..cx },
            def,
            env,
            decls,
            notes,
        ) is Err,
{
    let after = cx.structs.push((def.name@, fields));
    assert(after.last() == (def.name@, fields));
}

/// A method whose signature has been taken in cannot be declared again, whether its body was
/// right or not.
pub proof fn law_methods_are_declared_once(
    cx: ContextView,
    b: ast::Binding,
    decls: DeclMap,
    again: DeclMap,
    notes: NotesMap,
)
    requires
        declared_method(cx, b, decls, notes).methods != cx.methods,
    ensures
        declared_method(
            ContextView { methods: declared_method(cx, b, decls, notes).methods, ..cx },
            b,
            again,
            notes,
        ).fault is Some,
{
    let after = declared_method(cx, b, decls, notes).methods;
    let next = ContextView { methods: after, ..cx };
    let recv = declared_receiver(cx, b)->Ok_0;
    let method = declared_signature(cx, b, recv, decls.next_method)->Ok_0;
    assert(after == cx.methods.push(method));
    assert(after.last() == method);
    if let ast::ExprKind::FuncLit { params, .. } = b.value.kind {
        lemma_same_params(cx, next, params@, params@.len());
    }
}

proof fn lemma_same_params(a: ContextView, b: ContextView, params: Seq<ast::Param>, upto: nat)
    requires
        a.slots == b.slots,
    ensures
        declared_params(a, params, upto) == declared_params(b, params, upto),
    decreases upto,
{
    if upto > 0 {
        lemma_same_params(a, b, params, (upto - 1) as nat);
    }
}

} // verus!
