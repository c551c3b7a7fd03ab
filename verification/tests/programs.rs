//! Whole programs: what the passes settle, and what the last check refuses.

use alias_sema::body_effects::{infer_bodies, BodyEffects};
use alias_sema::builders::{index_node, index_place};
use alias_sema::capture::populate_captures;
use alias_sema::capture_kinds::FunctionKinds;
use alias_sema::deep_clone::deep_clone_plan_with;
use alias_sema::destruction::plan;
use alias_sema::gate::validate_resolved_hir;
use alias_sema::model::{
    ArgumentPass, ArmBody, AssignmentOperation, BinOp, BindKind, Binding, BindingOperation,
    BindingOwner, Body, BorrowKind, BuiltinCall, CallArg, CallResult, CallTarget, CheckedProgram,
    CtorKind, DeepClonePlan, DestroyNode, Expr, ExprCategory, ExprInfo, Item, MatchArm,
    MethodTarget, OwnershipCapability, OwningWrite, Param, Pattern, PatternBindingOperation, Place,
    PlaceInfo, ResolvedConversion, ReturnPass, RuntimeCheckRequirement, ShallowClonePlan, Stmt, StorageRelation, StrPart,
    StructDef, StructField, ValueCategory,
};
use alias_sema::ownership_capabilities;
use alias_sema::ownership_flow;
use alias_sema::ownership_flow::KindTable;
use alias_sema::passes::settle;
use alias_sema::runtime_checks::{array_index, array_place_index};
use alias_sema::shallow_clone::shallow_clone_root_plan_with;
use alias_sema::storage_relations::initial_relation;
use alias_sema::structs::{struct_fields, StructTable};
use alias_sema::types::{
    AliasError, BindingId, FunctionId, IntW, LoanId, MethodId, ParamEffect, ReturnBorrowSource,
    ReturnEffect, Span, Ty,
};
use alias_sema::value_categories;
use alias_sema::visit::{program_nodes, Node, Walk};

fn span() -> Span {
    Span { start: 1, end: 2 }
}

fn i32_ty() -> Ty {
    Ty::Int(IntW::W32)
}

fn array(element: Ty) -> Ty {
    Ty::Array(Box::new(element))
}

fn result(ok: Ty, err: Ty) -> Ty {
    Ty::Result(Box::new(ok), Box::new(err))
}

fn struct_ty(name: &str) -> Ty {
    Ty::Struct(name.to_string())
}

fn func_ty(params: Vec<Ty>, ret: Ty) -> Ty {
    Ty::Func { params, param_effects: None, ret: Box::new(ret), return_effect: None }
}

fn info(ty: Ty) -> ExprInfo {
    ExprInfo {
        ty,
        category: None,
        ownership_capability: None,
        container_write: None,
        return_pass: None,
    }
}

/// An expression with the facts that its own shape settles.
fn done(mut e: Expr) -> Expr {
    value_categories::finalize(&mut e).expect("category");
    ownership_capabilities::finalize(&mut e).expect("capability");
    e
}

fn integer(value: u64) -> Expr {
    done(Expr::Int(value, span(), info(i32_ty())))
}

fn text(value: &str) -> Expr {
    done(Expr::Str(vec![StrPart::Lit(value.to_string())], span(), info(Ty::Str)))
}

fn name(text: &str, id: u32, ty: Ty) -> Expr {
    done(Expr::Ident(text.to_string(), Some(BindingId(id)), span(), info(ty)))
}

fn local(id: u32, ty: Ty) -> Place {
    Place::Local { binding_id: BindingId(id), info: PlaceInfo { ty, span: span() } }
}

fn field_place(base: Place, field_index: usize, ty: Ty) -> Place {
    Place::Field { base: Box::new(base), field_index, info: PlaceInfo { ty, span: span() } }
}

fn read(id: u32, ty: Ty, plan: DeepClonePlan, as_ty: Ty) -> Expr {
    let source = Box::new(local(id, ty));
    done(Expr::ReadPlace { source, plan, span: span(), info: info(as_ty) })
}

fn read_string(id: u32) -> Expr {
    read(id, Ty::Str, DeepClonePlan::String, Ty::Str)
}

fn read_i32(id: u32) -> Expr {
    read(id, i32_ty(), DeepClonePlan::Inline, i32_ty())
}

fn transfer(id: u32, ty: Ty, as_ty: Ty) -> Expr {
    done(Expr::Move { source: Box::new(local(id, ty)), span: span(), info: info(as_ty) })
}

fn borrow(loan: u32, id: u32, ty: Ty, as_ty: Ty) -> Expr {
    done(Expr::Borrow {
        loan_id: LoanId(loan),
        source: Box::new(local(id, ty)),
        kind: None,
        span: span(),
        info: info(as_ty),
    })
}

fn binary(op: BinOp, lhs: Expr, rhs: Expr, ty: Ty) -> Expr {
    done(Expr::Binary {
        op,
        lhs: Box::new(lhs),
        rhs: Box::new(rhs),
        pointer_offset_source: None,
        span: span(),
        info: info(ty),
    })
}

fn sum(lhs: Expr, rhs: Expr) -> Expr {
    binary(BinOp::Add, lhs, rhs, i32_ty())
}

fn field(recv: Expr, field_index: usize, ty: Ty) -> Expr {
    done(Expr::Field { recv: Box::new(recv), field_index, span: span(), info: info(ty) })
}

fn list(elems: Vec<Expr>, element: Ty) -> Expr {
    done(Expr::ArrayLit { elems, span: span(), info: info(array(element)) })
}

fn args(values: Vec<Expr>) -> Vec<CallArg> {
    values.into_iter().map(|value| CallArg { value, pass: None }).collect()
}

fn call(callee: Expr, target: CallTarget, values: Vec<Expr>, ty: Ty) -> Expr {
    done(Expr::Call {
        callee: Box::new(callee),
        args: args(values),
        result: None,
        target,
        span: span(),
        info: info(ty),
    })
}

/// The name in front of a call that no variable stands for.
fn word(text: &str) -> Expr {
    done(Expr::Ident(text.to_string(), None, span(), info(Ty::Unit)))
}

fn build(name: &str, fields: Vec<(usize, Expr)>) -> Expr {
    let (indices, values) = fields.into_iter().unzip();
    let target =
        CallTarget::StructConstructor { name: name.to_string(), arg_field_indices: indices };
    call(word(name), target, values, struct_ty(name))
}

fn ok(value: Expr, ty: Ty) -> Expr {
    call(word("ok"), CallTarget::ResultConstructor(CtorKind::OkCtor), vec![value], ty)
}

fn builtin(name: &str, target: BuiltinCall, value: Expr, ty: Ty) -> Expr {
    call(word(name), CallTarget::Builtin(target), vec![value], ty)
}

fn method(recv: Expr, target: MethodTarget, values: Vec<Expr>, ty: Ty) -> Expr {
    done(Expr::MethodCall {
        recv: Box::new(recv),
        receiver_pass: None,
        args: args(values),
        result: None,
        target,
        span: span(),
        info: info(ty),
    })
}

fn len(recv: Expr) -> Expr {
    method(recv, MethodTarget::StringLen, vec![], i32_ty())
}

fn declared(id: u32, kind: BindKind, name: &str, ty: Ty, value: Expr) -> Binding {
    let relation = initial_relation(&value).expect("relation");
    Binding {
        binding_id: BindingId(id),
        owner: BindingOwner::Ordinary,
        kind,
        relation,
        operation: None,
        destroy_plan: None,
        ty,
        name: name.to_string(),
        value,
        span: span(),
    }
}

fn val(id: u32, name: &str, ty: Ty, value: Expr) -> Stmt {
    Stmt::Binding(declared(id, BindKind::Val, name, ty, value))
}

fn var(id: u32, name: &str, ty: Ty, value: Expr) -> Stmt {
    Stmt::Binding(declared(id, BindKind::Var, name, ty, value))
}

fn assign(target: Place, value: Expr) -> Stmt {
    Stmt::Assign { target, value, operation: None, destroy_plan: None }
}

fn run(expr: Expr) -> Stmt {
    Stmt::Expr { expr }
}

fn give(value: Expr) -> Stmt {
    Stmt::Return { value: Some(value) }
}

fn literal(function: u32, params: Vec<(u32, Ty, Ty)>, body: Body, ret: Ty) -> Expr {
    let mut types = Vec::new();
    let mut list = Vec::new();
    for (id, ty, again) in params {
        types.push(again);
        list.push(Param { binding_id: BindingId(id), ty, effect: None });
    }
    done(Expr::FuncLit {
        function_id: FunctionId(function),
        params: list,
        implicit_bindings: vec![],
        captures: vec![],
        body: Box::new(body),
        span: span(),
        info: info(func_ty(types, ret)),
    })
}

fn top(id: u32, name: &str, ty: Ty, value: Expr) -> Item {
    Item::Binding(Box::new(declared(id, BindKind::Func, name, ty, value)))
}

/// `func i32 main = () -> { .. }`, under the number 0.
fn main_item(stmts: Vec<Stmt>) -> Item {
    let value = literal(0, vec![], Body::Block(stmts), i32_ty());
    top(0, "main", func_ty(vec![], i32_ty()), value)
}

fn program(mut items: Vec<Item>, main: Vec<Stmt>) -> CheckedProgram {
    items.push(main_item(main));
    CheckedProgram { main_id: BindingId(0), items }
}

fn definition(name: &str, fields: Vec<(Ty, bool, Option<Expr>)>) -> Item {
    Item::StructDef(StructDef {
        name: name.to_string(),
        fields: fields
            .into_iter()
            .map(|(ty, mutable, default)| StructField { ty, mutable, default, span: span() })
            .collect(),
    })
}

/// The kinds of the loans that a function takes for its captures, when it only reads them.
fn reads(function: &Expr, _known: &KindTable) -> FunctionKinds {
    match function {
        Expr::FuncLit { captures, .. } => {
            Ok(captures.iter().map(|capture| (capture.loan_id, BorrowKind::Read)).collect())
        }
        _ => Ok(vec![]),
    }
}

/// The same, when it writes to them.
fn writes(function: &Expr, _known: &KindTable) -> FunctionKinds {
    match function {
        Expr::FuncLit { captures, .. } => {
            Ok(captures.iter().map(|capture| (capture.loan_id, BorrowKind::Write)).collect())
        }
        _ => Ok(vec![]),
    }
}

/// The functions of a program, in the order in which they are looked at.
fn function_order(program: &CheckedProgram) -> Vec<FunctionId> {
    let mut order = Vec::new();
    for visit in program_nodes(every_node(), program) {
        if let Node::Expr(Expr::FuncLit { function_id, .. }, _) = visit.node {
            order.push(*function_id);
        }
    }
    order
}

/// What a function does with its parameters, when the functions do what is given, in their order.
fn effects_of(function: &Expr, order: &[FunctionId], effects: &[Vec<ParamEffect>]) -> BodyEffects {
    let Expr::FuncLit { function_id, .. } = function else { panic!("a function") };
    let at = order.iter().position(|id| id == function_id).expect("a known function");
    Ok(effects[at].clone())
}

/// What a function does with what it captures.
type Kinds = fn(&Expr, &KindTable) -> FunctionKinds;

/// What the passes and the final checks make of a program, when its functions do with their
/// parameters and captures what is given.
fn settle_as(
    mut program: CheckedProgram,
    effects: &[Vec<ParamEffect>],
    kinds: Kinds,
) -> Result<CheckedProgram, AliasError> {
    let mut next_loan = 50;
    populate_captures(&mut program, &mut next_loan)?;
    let order = function_order(&program);
    settle(&mut program, &mut next_loan, kinds, |function: &Expr, _kinds: &KindTable| {
        effects_of(function, &order, effects)
    })?;
    Ok(program)
}

fn settled_as(
    program: CheckedProgram,
    effects: &[Vec<ParamEffect>],
    kinds: Kinds,
) -> CheckedProgram {
    settle_as(program, effects, kinds).expect("settled and accepted")
}

/// A program whose functions only read what they capture after all passes.
fn settled_with(program: CheckedProgram, effects: &[Vec<ParamEffect>]) -> CheckedProgram {
    settled_as(program, effects, reads)
}

/// A program without parameters after all passes.
fn settled(program: CheckedProgram) -> CheckedProgram {
    settled_with(program, &[vec![]])
}

fn accepts_as(
    program: &CheckedProgram,
    effects: &[Vec<ParamEffect>],
    kinds: Kinds,
) -> Result<(), AliasError> {
    let order = function_order(program);
    validate_resolved_hir(program, kinds, |function: &Expr, _kinds: &KindTable| {
        effects_of(function, &order, effects)
    })
}

fn accepts_with(program: &CheckedProgram, effects: &[Vec<ParamEffect>]) -> Result<(), AliasError> {
    accepts_as(program, effects, reads)
}

fn accepts(program: &CheckedProgram) -> Result<(), AliasError> {
    accepts_with(program, &[vec![]])
}

fn top_binding<'a>(program: &'a mut CheckedProgram, name: &str) -> &'a mut Binding {
    for item in program.items.iter_mut() {
        if let Item::Binding(binding) = item {
            if binding.name == name {
                return binding;
            }
        }
    }
    panic!("missing {}", name)
}

fn statements(function: &mut Expr) -> &mut Vec<Stmt> {
    let Expr::FuncLit { body, .. } = function else { panic!("a function") };
    let Body::Block(stmts) = body.as_mut() else { panic!("a block") };
    stmts
}

fn main_body(program: &mut CheckedProgram) -> &mut Vec<Stmt> {
    statements(&mut top_binding(program, "main").value)
}

fn binding<'a>(program: &'a mut CheckedProgram, name: &str) -> &'a mut Binding {
    for stmt in main_body(program).iter_mut() {
        if let Stmt::Binding(binding) = stmt {
            if binding.name == name {
                return binding;
            }
        }
    }
    panic!("missing {}", name)
}

fn refuses(program: &CheckedProgram, part: &str) {
    let error = accepts(program).expect_err("must be refused");
    assert!(error.msg.contains(part), "{}", error.msg);
}

/// val string source = 'x'; val string transferred = move(source); return transferred.len()
fn moved() -> CheckedProgram {
    settled(program(
        vec![],
        vec![
            val(1, "source", Ty::Str, text("x")),
            val(2, "transferred", Ty::Str, transfer(1, Ty::Str, Ty::Str)),
            give(len(name("transferred", 2, Ty::Str))),
        ],
    ))
}

#[test]
fn move_freezes_source_place_and_owned_result_facts() {
    let mut program = moved();
    accepts(&program).expect("accepted");
    let transferred = binding(&mut program, "transferred");
    assert_eq!(transferred.relation, Some(StorageRelation::Owning));
    assert_eq!(
        transferred.value.category(),
        Some(ExprCategory::Value(ValueCategory::OwnedTemporary))
    );
    assert_eq!(transferred.value.ownership_capability(), Some(OwnershipCapability::Available));
    let Expr::Move { source, .. } = &transferred.value else { panic!("a move") };
    assert!(matches!(source.as_ref(), Place::Local { .. }));
}

#[test]
fn final_gate_rejects_move_source_type_drift() {
    let mut program = moved();
    let Expr::Move { source, .. } = &mut binding(&mut program, "transferred").value else {
        panic!("a move")
    };
    match source.as_mut() {
        Place::Local { info, .. } => info.ty = i32_ty(),
        _ => panic!("a local"),
    }
    let error = accepts(&program).expect_err("refused");
    assert!(
        error.msg.contains("Move source/result 类型不一致")
            || error.msg.contains("Place Local 类型与 BindingId 声明类型不一致"),
        "{}",
        error.msg
    );
}

#[test]
fn direct_array_literal_constant_oob_is_rejected_statically() {
    // return [10, 20][2]
    let pick = |at: u64| {
        let recv = list(vec![integer(10), integer(20)], i32_ty());
        index_node(recv, integer(at), span(), i32_ty())
    };
    let error = pick(2).expect_err("refused");
    assert!(error.msg.contains("数组字面量的常量下标越界"), "{}", error.msg);
    let value = pick(1).expect("in range");
    let mut program = settled(program(vec![], vec![give(value)]));
    // The same is found in a tree where it was overlooked.
    let Expr::Index { idx, .. } = returned(main_body(&mut program)) else { panic!("an index") };
    **idx = integer(2);
    refuses(&program, "数组字面量的常量下标越界");
}

#[test]
fn direct_array_literal_constant_index_freezes_static_proof() {
    // val i32 selected = [10, 20][1]; return selected
    let whole = list(vec![integer(10), integer(20)], i32_ty());
    let picked = index_node(whole, integer(1), span(), i32_ty()).expect("in range");
    let mut program = settled(program(
        vec![],
        vec![
            val(1, "selected", i32_ty(), picked),
            give(name("selected", 1, i32_ty())),
        ],
    ));
    let selected = binding(&mut program, "selected");
    assert_eq!(
        selected.operation,
        Some(BindingOperation::Initialize(OwningWrite::InlineCopy))
    );
    let Expr::Index { bounds_check, .. } = &mut selected.value else { panic!("an index") };
    assert_eq!(*bounds_check, RuntimeCheckRequirement::Proven);
    *bounds_check = RuntimeCheckRequirement::Required;
    refuses(&program, "bounds-check fact 漂移");
}

#[test]
fn array_place_index_keeps_runtime_check_requirement() {
    // val array<i32> values = [10, 20]; val i32 at = 1; val i32 selected = values[at]
    // return selected
    let source =
        index_place(local(1, array(i32_ty())), name("at", 2, i32_ty()), i32_ty(), span());
    let picked = done(Expr::ReadPlace {
        source: Box::new(source),
        plan: DeepClonePlan::Inline,
        span: span(),
        info: info(i32_ty()),
    });
    let mut program = settled(program(
        vec![],
        vec![
            val(1, "values", array(i32_ty()), list(vec![integer(10), integer(20)], i32_ty())),
            val(2, "at", i32_ty(), integer(1)),
            val(3, "selected", i32_ty(), picked),
            give(name("selected", 3, i32_ty())),
        ],
    ));
    let Expr::ReadPlace { source, .. } = &mut binding(&mut program, "selected").value else {
        panic!("a read")
    };
    let Place::Index { bounds_check, .. } = source.as_mut() else { panic!("an index") };
    assert_eq!(*bounds_check, RuntimeCheckRequirement::Required);
    *bounds_check = RuntimeCheckRequirement::Proven;
    refuses(&program, "bounds-check fact 漂移");
}

/// val string owner = 'x'; val string alias = borrow owner; return alias.len()
fn borrowed() -> CheckedProgram {
    settled(program(
        vec![],
        vec![
            val(1, "owner", Ty::Str, text("x")),
            val(2, "alias", Ty::Str, borrow(0, 1, Ty::Str, Ty::Str)),
            give(len(name("alias", 2, Ty::Str))),
        ],
    ))
}

/// var i32 owner = 1; val i32 alias = borrow owner; increase alias; return owner
fn written_through() -> CheckedProgram {
    settled(program(
        vec![],
        vec![
            var(1, "owner", i32_ty(), integer(1)),
            val(2, "alias", i32_ty(), borrow(0, 1, i32_ty(), i32_ty())),
            run(builtin("increase", BuiltinCall::Increase, name("alias", 2, i32_ty()), Ty::Unit)),
            give(name("owner", 1, i32_ty())),
        ],
    ))
}

fn loan_kind(e: &mut Expr) -> &mut Option<BorrowKind> {
    let Expr::Borrow { kind, .. } = e else { panic!("a borrow") };
    kind
}

#[test]
fn borrow_freezes_place_relation_category_and_read_loan() {
    let mut program = borrowed();
    accepts(&program).expect("accepted");
    let alias = binding(&mut program, "alias");
    assert_eq!(alias.relation, Some(StorageRelation::Borrowed));
    assert_eq!(alias.value.category(), Some(ExprCategory::Value(ValueCategory::BorrowedValue)));
    assert_eq!(alias.value.ownership_capability(), Some(OwnershipCapability::Absent));
    let Expr::Borrow { source, kind, .. } = &alias.value else { panic!("a borrow") };
    assert!(matches!(source.as_ref(), Place::Local { .. }));
    assert_eq!(*kind, Some(BorrowKind::Read));
}

#[test]
fn actual_write_through_upgrades_the_loan_kind() {
    let mut program = written_through();
    accepts(&program).expect("accepted");
    let kind = loan_kind(&mut binding(&mut program, "alias").value);
    assert_eq!(*kind, Some(BorrowKind::Write));
}

#[test]
fn final_gate_rejects_loan_kind_drift() {
    let mut program = written_through();
    *loan_kind(&mut binding(&mut program, "alias").value) = Some(BorrowKind::Read);
    let error = accepts(&program).expect_err("refused");
    assert!(error.msg.contains("loan kind") && error.msg.contains("漂移"), "{}", error.msg);
}

#[test]
fn final_gate_rejects_borrowed_relation_drift() {
    let mut program = borrowed();
    binding(&mut program, "alias").relation = Some(StorageRelation::Owning);
    refuses(&program, "storage relation");
}

fn point(fields: usize, with_default: bool) -> Item {
    let mut list = Vec::new();
    for _ in 0..fields {
        let default = if with_default { Some(integer(7)) } else { None };
        list.push((i32_ty(), false, default));
    }
    definition("point", list)
}

fn constructor(e: &mut Expr) -> (&mut Vec<CallArg>, &mut Vec<usize>) {
    let Expr::Call { args, target, .. } = e else { panic!("a call") };
    let CallTarget::StructConstructor { arg_field_indices, .. } = target else {
        panic!("a constructor")
    };
    (args, arg_field_indices)
}

fn returned(stmts: &mut Vec<Stmt>) -> &mut Expr {
    match stmts.last_mut() {
        Some(Stmt::Return { value: Some(value) }) => value,
        _ => panic!("a return"),
    }
}

/// struct point { val i32 x }, with a default or without one
/// val point p = ..; return p.x
fn one_field(with_default: bool, made: Expr) -> CheckedProgram {
    settled(program(
        vec![point(1, with_default)],
        vec![
            val(1, "p", struct_ty("point"), made),
            give(field(name("p", 1, struct_ty("point")), 0, i32_ty())),
        ],
    ))
}

#[test]
fn resolved_hir_rejects_constructor_arg_type_drift() {
    let mut program = one_field(false, build("point", vec![(0, integer(9))]));
    accepts(&program).expect("accepted");
    let (args, _) = constructor(&mut binding(&mut program, "p").value);
    args[0].value.info_mut().ty = Ty::Str;
    let error = alias_sema::validate::validate_resolved_hir(&program).expect_err("refused");
    assert!(error.msg.contains("构造器实参类型与已解析字段类型不一致"), "{}", error.msg);
    assert!(accepts(&program).is_err());
}

#[test]
fn resolved_hir_rejects_missing_required_constructor_field() {
    // struct point { val i32 x val i32 y }; val point p = point(x = 1, y = 2); return p.x
    let mut program = settled(program(
        vec![point(2, false)],
        vec![
            val(
                1,
                "p",
                struct_ty("point"),
                build("point", vec![(0, integer(1)), (1, integer(2))]),
            ),
            give(field(name("p", 1, struct_ty("point")), 0, i32_ty())),
        ],
    ));
    accepts(&program).expect("accepted");
    let (args, indices) = constructor(&mut binding(&mut program, "p").value);
    args.pop();
    indices.pop();
    let error = alias_sema::validate::validate_resolved_hir(&program).expect_err("refused");
    assert!(error.msg.contains("结构体构造 target 遗漏无默认值字段"), "{}", error.msg);
    refuses(&program, "结构体构造 target 遗漏无默认值字段");
}

#[test]
fn resolved_hir_rejects_field_result_type_drift() {
    let mut program = one_field(true, build("point", vec![]));
    returned(main_body(&mut program)).info_mut().ty = Ty::Str;
    let error = alias_sema::validate::validate_resolved_hir(&program).expect_err("refused");
    assert!(error.msg.contains("字段表达式类型与已解析字段声明不一致"), "{}", error.msg);
    assert!(accepts(&program).is_err());
}

#[test]
fn resolved_hir_rejects_corrupt_constructor_field_index() {
    let mut program = one_field(true, build("point", vec![(0, integer(9))]));
    let (_, indices) = constructor(&mut binding(&mut program, "p").value);
    indices[0] = usize::MAX;
    assert!(accepts(&program).is_err());
    let error = alias_sema::validate::validate_resolved_hir(&program).expect_err("refused");
    assert!(error.msg.contains("字段索引越界或重复"), "{}", error.msg);
}

#[test]
fn resolved_hir_rejects_corrupt_field_index() {
    let mut program = one_field(true, build("point", vec![]));
    let Expr::Field { field_index, .. } = returned(main_body(&mut program)) else {
        panic!("a field")
    };
    *field_index = usize::MAX;
    let error = alias_sema::validate::validate_resolved_hir(&program).expect_err("refused");
    assert!(error.msg.contains("字段索引越界"), "{}", error.msg);
}

fn clone_plan(e: &mut Expr) -> &mut DeepClonePlan {
    match e {
        Expr::Call { target: CallTarget::Builtin(BuiltinCall::DeepClone(plan)), .. } => plan,
        _ => panic!("a clone"),
    }
}

fn string_leaf() -> DeepClonePlan {
    DeepClonePlan::Struct { name: "leaf".to_string(), fields: vec![DeepClonePlan::String] }
}

fn box_plan() -> DeepClonePlan {
    DeepClonePlan::Struct { name: "box".to_string(), fields: vec![string_leaf()] }
}

/// struct leaf { val string name = 'x' }; struct box { val leaf item = leaf() }
fn boxes() -> Vec<Item> {
    vec![
        definition("leaf", vec![(Ty::Str, false, Some(text("x")))]),
        definition("box", vec![(struct_ty("leaf"), false, Some(build("leaf", vec![])))]),
    ]
}

/// The structs that a list of items declares.
fn structs_of(items: Vec<Item>) -> StructTable {
    struct_fields(&CheckedProgram { main_id: BindingId(0), items })
}

/// A clone, with the plan that its type calls for.
fn deep(structs: &StructTable, value: Expr, ty: Ty) -> Expr {
    let plan = deep_clone_plan_with(&ty, span(), structs).expect("a plan");
    builtin("clone", BuiltinCall::DeepClone(plan), value, ty)
}

#[test]
fn clone_freezes_recursive_plan_and_value_ownership() {
    let strings = || array(Ty::Str);
    let fallible = || result(Ty::Str, i32_ty());
    let many = || DeepClonePlan::Array(Box::new(DeepClonePlan::String));
    let either = || DeepClonePlan::Result {
        ok: Box::new(DeepClonePlan::String),
        err: Box::new(DeepClonePlan::Inline),
    };
    let structs = structs_of(boxes());
    let mut program = settled(program(
        boxes(),
        vec![
            val(1, "n", i32_ty(), integer(1)),
            val(2, "n2", i32_ty(), deep(&structs, name("n", 1, i32_ty()), i32_ty())),
            val(3, "s", Ty::Str, text("a")),
            val(4, "s2", Ty::Str, deep(&structs, name("s", 3, Ty::Str), Ty::Str)),
            val(5, "b", struct_ty("box"), build("box", vec![])),
            val(
                6,
                "b2",
                struct_ty("box"),
                deep(&structs, name("b", 5, struct_ty("box")), struct_ty("box")),
            ),
            val(7, "a", strings(), list(vec![text("a"), text("b")], Ty::Str)),
            val(8, "a2", strings(), deep(&structs, name("a", 7, strings()), strings())),
            val(9, "r", fallible(), ok(text("x"), fallible())),
            val(10, "r2", fallible(), deep(&structs, name("r", 9, fallible()), fallible())),
            val(
                11,
                "empty",
                array(i32_ty()),
                deep(&structs, list(vec![], i32_ty()), array(i32_ty())),
            ),
            give(name("n2", 2, i32_ty())),
        ],
    ));
    accepts(&program).expect("the recorded plans are the right ones");
    let n2 = binding(&mut program, "n2");
    assert_eq!(n2.value.category(), Some(ExprCategory::Value(ValueCategory::InlineValue)));
    assert_eq!(n2.value.ownership_capability(), Some(OwnershipCapability::Absent));
    assert_eq!(n2.relation, Some(StorageRelation::Owning));
    let s2 = binding(&mut program, "s2");
    assert_eq!(s2.value.category(), Some(ExprCategory::Value(ValueCategory::OwnedTemporary)));
    assert_eq!(s2.value.ownership_capability(), Some(OwnershipCapability::Available));
    assert_eq!(s2.relation, Some(StorageRelation::Owning));
    let mut plan_is = |name: &str, plan: DeepClonePlan| {
        assert!(clone_plan(&mut binding(&mut program, name).value).same(&plan), "{}", name);
    };
    plan_is("n2", DeepClonePlan::Inline);
    plan_is("s2", DeepClonePlan::String);
    plan_is("b2", box_plan());
    plan_is("a2", many());
    plan_is("r2", either());
    plan_is("empty", DeepClonePlan::Array(Box::new(DeepClonePlan::Inline)));
    for drifted in ["s2", "b2", "a2", "r2"] {
        let plan = clone_plan(&mut binding(&mut program, drifted).value);
        let right = std::mem::replace(plan, DeepClonePlan::Array(Box::new(string_leaf())));
        refuses(&program, "DeepClone plan 与 resolved 静态类型不一致");
        *clone_plan(&mut binding(&mut program, drifted).value) = right;
        accepts(&program).expect("mended");
    }
}

#[test]
fn final_hir_gate_rejects_deep_clone_plan_drift() {
    let mut program = settled(program(
        vec![],
        vec![
            val(1, "s", Ty::Str, text("a")),
            val(2, "c", Ty::Str, deep(&StructTable::new(), name("s", 1, Ty::Str), Ty::Str)),
            give(integer(0)),
        ],
    ));
    *clone_plan(&mut binding(&mut program, "c").value) =
        DeepClonePlan::Array(Box::new(DeepClonePlan::Inline));
    refuses(&program, "DeepClone plan 与 resolved 静态类型不一致");
}

fn shallow_plan(e: &mut Expr) -> &mut ShallowClonePlan {
    match e {
        Expr::Call { target: CallTarget::Builtin(BuiltinCall::ShallowClone(plan)), .. } => plan,
        _ => panic!("a shallow copy"),
    }
}

#[test]
fn final_hir_gate_rejects_shallow_plan_drift() {
    let plan =
        ShallowClonePlan::Struct { name: "leaf".to_string(), fields: vec![ShallowClonePlan::Inline] };
    let leaf = || struct_ty("leaf");
    let copy =
        builtin("shallow", BuiltinCall::ShallowClone(plan), name("a", 1, leaf()), leaf());
    let mut program = settled(program(
        vec![definition("leaf", vec![(i32_ty(), true, Some(integer(1)))])],
        vec![
            val(1, "a", leaf(), build("leaf", vec![])),
            val(2, "c", leaf(), copy),
            give(integer(0)),
        ],
    ));
    accepts(&program).expect("accepted");
    *shallow_plan(&mut binding(&mut program, "c").value) = ShallowClonePlan::Result {
        ok: Box::new(ShallowClonePlan::Inline),
        err: Box::new(ShallowClonePlan::Inline),
    };
    refuses(&program, "ShallowClone plan 与 resolved 静态类型不一致");
}

#[test]
fn owning_slot_read_freezes_place_plan_and_ownership_facts() {
    let boxed = || struct_ty("box");
    let found =
        deep_clone_plan_with(&boxed(), span(), &structs_of(boxes())).expect("a plan");
    let mut program = settled(program(
        boxes(),
        vec![
            val(1, "source", boxed(), build("box", vec![])),
            val(2, "copied", boxed(), read(1, boxed(), found, boxed())),
            val(3, "scalar", i32_ty(), integer(1)),
            val(4, "scalar_copy", i32_ty(), read_i32(3)),
            give(name("scalar_copy", 4, i32_ty())),
        ],
    ));
    accepts(&program).expect("accepted");
    let copied = binding(&mut program, "copied");
    assert_eq!(copied.relation, Some(StorageRelation::Owning));
    assert_eq!(copied.value.category(), Some(ExprCategory::Value(ValueCategory::OwnedTemporary)));
    assert_eq!(copied.value.ownership_capability(), Some(OwnershipCapability::Available));
    let Expr::ReadPlace { source, plan, .. } = &copied.value else { panic!("a read") };
    assert!(matches!(source.as_ref(), Place::Local { .. }));
    assert!(plan.same(&box_plan()));
    let scalar = binding(&mut program, "scalar_copy");
    assert_eq!(scalar.relation, Some(StorageRelation::Owning));
    assert_eq!(scalar.value.category(), Some(ExprCategory::Value(ValueCategory::InlineValue)));
    assert_eq!(scalar.value.ownership_capability(), Some(OwnershipCapability::Absent));
    assert!(matches!(scalar.value, Expr::ReadPlace { plan: DeepClonePlan::Inline, .. }));
}

#[test]
fn final_gate_rejects_ordinary_read_plan_drift() {
    let mut program = settled(program(
        vec![],
        vec![
            val(1, "source", Ty::Str, text("x")),
            val(2, "copied", Ty::Str, read_string(1)),
            give(len(name("copied", 2, Ty::Str))),
        ],
    ));
    accepts(&program).expect("accepted");
    let Expr::ReadPlace { plan, .. } = &mut binding(&mut program, "copied").value else {
        panic!("a read")
    };
    *plan = DeepClonePlan::Array(Box::new(DeepClonePlan::Inline));
    refuses(&program, "ReadPlace DeepClone plan 与 resolved Place 类型不一致");
}

#[test]
fn replacement_destruction_plan_is_resolved_and_validated() {
    // struct bucket { var array<string> values = ['old'] }; var bucket value = bucket()
    // value = bucket(); return 0
    let bucket = || struct_ty("bucket");
    let mut program = settled(program(
        vec![definition("bucket", vec![(array(Ty::Str), true, Some(list(vec![text("old")], Ty::Str)))])],
        vec![
            var(1, "value", bucket(), build("bucket", vec![])),
            assign(local(1, bucket()), build("bucket", vec![])),
            give(integer(0)),
        ],
    ));
    accepts(&program).expect("accepted");
    let Stmt::Assign { destroy_plan, .. } = &mut main_body(&mut program)[1] else {
        panic!("an assignment")
    };
    let plan = destroy_plan.as_mut().expect("a plan");
    assert_eq!(plan.nodes.len(), 3);
    assert!(plan.nodes[0]
        .same(&DestroyNode::Struct { name: "bucket".to_string(), fields: vec![1] }));
    assert!(plan.nodes[1].same(&DestroyNode::Array { element: 2 }));
    assert!(plan.nodes[2].same(&DestroyNode::String));
    plan.nodes[2] = DestroyNode::Inline;
    refuses(&program, "destruction plan");
}

/// struct point { val i32 x = 1 }; func point make = () -> point()
fn maker() -> Vec<Item> {
    let body = Body::Block(vec![give(build("point", vec![]))]);
    let value = literal(1, vec![], body, struct_ty("point"));
    vec![point(1, true), top(20, "make", func_ty(vec![], struct_ty("point")), value)]
}

fn make() -> Expr {
    let callee = name("make", 20, func_ty(vec![], struct_ty("point")));
    call(callee, CallTarget::FunctionValue, vec![], struct_ty("point"))
}

#[test]
fn resolved_hir_freezes_only_proven_owning_relations() {
    let point = || struct_ty("point");
    let mut program = program(
        maker(),
        vec![
            val(1, "scalar", i32_ty(), integer(1)),
            val(2, "fresh", point(), build("point", vec![])),
            val(3, "scalar_copy", i32_ty(), name("scalar", 1, i32_ty())),
            val(4, "from_func", point(), make()),
            val(5, "from_place", point(), name("fresh", 2, point())),
            give(name("scalar_copy", 3, i32_ty())),
        ],
    );
    assert_eq!(binding(&mut program, "scalar").relation, Some(StorageRelation::Owning));
    assert_eq!(binding(&mut program, "fresh").relation, Some(StorageRelation::Owning));
    assert_eq!(binding(&mut program, "scalar_copy").relation, Some(StorageRelation::Owning));
    assert_eq!(binding(&mut program, "from_func").relation, None);
    assert_eq!(binding(&mut program, "from_place").relation, None);
}

#[test]
fn calls_settle_the_relation_of_their_results() {
    let mut program = settled_with(
        program(
            maker(),
            vec![val(1, "made", struct_ty("point"), make()), give(integer(0))],
        ),
        &[vec![], vec![]],
    );
    accepts_with(&program, &[vec![], vec![]]).expect("accepted");
    let made = binding(&mut program, "made");
    assert_eq!(made.relation, Some(StorageRelation::Owning));
    let Expr::Call { result, .. } = &made.value else { panic!("a call") };
    assert!(matches!(result.as_deref(), Some(CallResult::Owned)));
}

#[test]
fn final_hir_gate_rejects_storage_relation_drift() {
    let mut program = settled(program(
        vec![point(1, true)],
        vec![val(1, "p", struct_ty("point"), build("point", vec![])), give(integer(0))],
    ));
    binding(&mut program, "p").relation = None;
    refuses(&program, "Binding storage relation 与 initializer semantic category 不一致");
}

#[test]
fn final_hir_gate_rejects_binary_result_type_drift() {
    // return 1 + 2
    let mut program = settled(program(vec![], vec![give(sum(integer(1), integer(2)))]));
    accepts(&program).expect("accepted");
    let info = returned(main_body(&mut program)).info_mut();
    info.ty = Ty::Str;
    info.category = Some(ExprCategory::Value(ValueCategory::General));
    info.ownership_capability = None;
    refuses(&program, "Binary HIR 结果类型与 canonical operator contract 不一致");
}

#[test]
fn final_hir_gate_rejects_index_result_type_drift() {
    // val array<i32> values = [7]; return values[0]
    let values = name("values", 1, array(i32_ty()));
    let picked = index_node(values, integer(0), span(), i32_ty()).expect("an index");
    let mut program = settled(program(
        vec![],
        vec![val(1, "values", array(i32_ty()), list(vec![integer(7)], i32_ty())), give(picked)],
    ));
    accepts(&program).expect("accepted");
    returned(main_body(&mut program)).info_mut().ty = Ty::Str;
    refuses(&program, "Index HIR 下标/结果类型不一致");
}

#[test]
fn final_hir_gate_rejects_impossible_resolved_conversion() {
    // val u32 source = 7; val i32 value = from source; return value
    let unsigned = || Ty::UInt(IntW::W32);
    let converted = done(Expr::Convert {
        expr: Box::new(name("source", 1, unsigned())),
        mode: ResolvedConversion::Convert,
        span: span(),
        info: info(i32_ty()),
    });
    let mut program = settled(program(
        vec![],
        vec![
            val(1, "source", unsigned(), done(Expr::Int(7, span(), info(unsigned())))),
            val(2, "value", i32_ty(), converted),
            give(name("value", 2, i32_ty())),
        ],
    ));
    accepts(&program).expect("accepted");
    binding(&mut program, "value").value.info_mut().ty = Ty::Bool;
    refuses(&program, "resolved Convert 不符合 canonical conversion contract");
}

fn arm(pattern: Pattern, id: Option<u32>, value: Expr) -> MatchArm {
    MatchArm {
        pattern,
        binding_id: id.map(BindingId),
        binding_operation: None,
        body: ArmBody::Value(Box::new(value)),
    }
}

fn bound(name: &str) -> Pattern {
    Pattern::Binding { name: name.to_string(), span: span() }
}

fn matched(subject: Expr, arms: Vec<MatchArm>, ty: Ty) -> Expr {
    done(Expr::Match { subject: Box::new(subject), arms, span: span(), info: info(ty) })
}

fn arms_of(e: &mut Expr) -> &mut Vec<MatchArm> {
    let Expr::Match { arms, .. } = e else { panic!("a match") };
    arms
}

fn clones_cell(operation: &Option<PatternBindingOperation>) -> bool {
    match operation {
        Some(PatternBindingOperation::DeepClone(plan)) => plan.same(&DeepClonePlan::Struct {
            name: "cell".to_string(),
            fields: vec![DeepClonePlan::Inline],
        }),
        _ => false,
    }
}

#[test]
fn pattern_bindings_freeze_copy_clone_and_transfer_operations() {
    let cell = || struct_ty("cell");
    let wrapped = || result(cell(), Ty::Str);
    let value_of = |id: u32| field(name("item", id, cell()), 0, i32_ty());
    let made = |value: u64| build("cell", vec![(0, integer(value))]);
    let payload = vec![
        arm(
            Pattern::Constructor {
                ctor: CtorKind::OkCtor,
                binding: Some("item".to_string()),
                span: span(),
            },
            Some(13),
            value_of(13),
        ),
        arm(
            Pattern::Constructor { ctor: CtorKind::ErrCtor, binding: None, span: span() },
            None,
            integer(0),
        ),
    ];
    let mut program = settled(program(
        vec![definition("cell", vec![(i32_ty(), true, Some(integer(0)))])],
        vec![
            val(1, "source", cell(), made(7)),
            val(
                2,
                "cloned",
                i32_ty(),
                matched(
                    name("source", 1, cell()),
                    vec![arm(bound("item"), Some(11), value_of(11))],
                    i32_ty(),
                ),
            ),
            val(
                3,
                "transferred",
                i32_ty(),
                matched(made(8), vec![arm(bound("item"), Some(12), value_of(12))], i32_ty()),
            ),
            val(4, "wrapped", wrapped(), ok(made(9), wrapped())),
            val(5, "payload", i32_ty(), matched(name("wrapped", 4, wrapped()), payload, i32_ty())),
            give(sum(
                sum(name("cloned", 2, i32_ty()), name("transferred", 3, i32_ty())),
                name("payload", 5, i32_ty()),
            )),
        ],
    ));
    accepts(&program).expect("accepted");
    let arms = arms_of(&mut binding(&mut program, "cloned").value);
    assert!(clones_cell(&arms[0].binding_operation));
    let arms = arms_of(&mut binding(&mut program, "transferred").value);
    assert!(matches!(
        arms[0].binding_operation,
        Some(PatternBindingOperation::OwnershipTransfer)
    ));
    let arms = arms_of(&mut binding(&mut program, "payload").value);
    assert!(clones_cell(&arms[0].binding_operation));
    assert!(arms[1].binding_operation.is_none());
}

#[test]
fn final_hir_gate_rejects_pattern_binding_operation_drift() {
    let length = matched(
        name("source", 1, Ty::Str),
        vec![arm(bound("text"), Some(9), len(name("text", 9, Ty::Str)))],
        i32_ty(),
    );
    let mut program = settled(program(
        vec![],
        vec![
            val(1, "source", Ty::Str, text("x")),
            val(2, "length", i32_ty(), length),
            give(name("length", 2, i32_ty())),
        ],
    ));
    arms_of(&mut binding(&mut program, "length").value)[0].binding_operation =
        Some(PatternBindingOperation::OwnershipTransfer);
    refuses(&program, "Pattern binding operation");
}

fn containers() -> CheckedProgram {
    let cell = || struct_ty("cell");
    let plan =
        || DeepClonePlan::Struct { name: "cell".to_string(), fields: vec![DeepClonePlan::Inline] };
    let original = || read(1, cell(), plan(), cell());
    let pushed = method(
        name("items", 3, array(cell())),
        MethodTarget::ArrayPush,
        vec![build("cell", vec![])],
        Ty::Unit,
    );
    let count = method(name("items", 3, array(cell())), MethodTarget::ArrayLen, vec![], i32_ty());
    let wrapped = || result(cell(), Ty::Str);
    let item = field(name("object", 2, struct_ty("holder")), 0, cell());
    settled(program(
        vec![
            definition("cell", vec![(i32_ty(), true, Some(integer(1)))]),
            definition("holder", vec![(cell(), false, Some(build("cell", vec![])))]),
        ],
        vec![
            val(1, "original", cell(), build("cell", vec![])),
            val(2, "object", struct_ty("holder"), build("holder", vec![(0, original())])),
            val(3, "items", array(cell()), list(vec![original()], cell())),
            run(pushed),
            val(4, "wrapped", wrapped(), ok(original(), wrapped())),
            give(sum(field(item, 0, i32_ty()), count)),
        ],
    ))
}

fn container_initializers(program: &mut CheckedProgram) -> Vec<&mut Expr> {
    let mut values = Vec::new();
    for item in program.items.iter_mut() {
        match item {
            Item::StructDef(def) => {
                values.extend(def.fields.iter_mut().filter_map(|field| field.default.as_mut()));
            }
            Item::Binding(binding) => {
                for stmt in statements(&mut binding.value).iter_mut() {
                    let value = match stmt {
                        Stmt::Binding(binding) => &mut binding.value,
                        Stmt::Expr { expr } => expr,
                        _ => continue,
                    };
                    match value {
                        Expr::Call { args, .. } | Expr::MethodCall { args, .. } => {
                            values.extend(args.iter_mut().map(|arg| &mut arg.value));
                        }
                        Expr::ArrayLit { elems, .. } => values.extend(elems),
                        _ => {}
                    }
                }
            }
        }
    }
    values
}

#[test]
fn container_writes_are_frozen_and_fail_closed_at_each_destination() {
    let mut program = containers();
    accepts(&program).expect("accepted");
    let writes: Vec<Option<OwningWrite>> = container_initializers(&mut program)
        .iter()
        .map(|value| value.info().container_write)
        .collect();
    assert_eq!(
        writes,
        [
            Some(OwningWrite::InlineCopy),
            Some(OwningWrite::OwnershipTransfer),
            Some(OwningWrite::OwnershipTransfer),
            Some(OwningWrite::OwnershipTransfer),
            Some(OwningWrite::OwnershipTransfer),
            Some(OwningWrite::OwnershipTransfer),
        ]
    );
    for index in 0..writes.len() {
        let other = if index == 0 {
            OwningWrite::OwnershipTransfer
        } else {
            OwningWrite::InlineCopy
        };
        for replacement in [None, Some(other)] {
            let mut program = containers();
            container_initializers(&mut program)[index].info_mut().container_write = replacement;
            refuses(&program, "container write");
        }
    }
}

#[test]
fn container_write_cannot_be_attached_to_an_unrelated_expression() {
    let mut program = containers();
    binding(&mut program, "original").value.info_mut().container_write =
        Some(OwningWrite::OwnershipTransfer);
    refuses(&program, "非 container destination");
}

#[test]
fn binding_initialization_operations_are_frozen() {
    let boxed = || struct_ty("box");
    let plan =
        || DeepClonePlan::Struct { name: "box".to_string(), fields: vec![DeepClonePlan::Inline] };
    let made = |value: u64| build("box", vec![(0, integer(value))]);
    let fresh = || func_ty(vec![], boxed());
    let items = vec![
        definition("box", vec![(i32_ty(), true, Some(integer(0)))]),
        Item::Binding(Box::new(declared(30, BindKind::Val, "global", boxed(), made(1)))),
        top(31, "fresh", fresh(), literal(1, vec![], Body::Block(vec![give(made(2))]), boxed())),
    ];
    let value_of = |text: &str, id: u32| field(name(text, id, boxed()), 0, i32_ty());
    let mut program = settled_with(
        program(
            items,
            vec![
                val(1, "scalar", i32_ty(), integer(3)),
                val(2, "copied", i32_ty(), read_i32(1)),
                val(
                    3,
                    "owner",
                    boxed(),
                    call(name("fresh", 31, fresh()), CallTarget::FunctionValue, vec![], boxed()),
                ),
                val(4, "cloned", boxed(), read(30, boxed(), plan(), boxed())),
                val(5, "transferred", boxed(), transfer(3, boxed(), boxed())),
                val(6, "alias", boxed(), borrow(0, 4, boxed(), boxed())),
                give(sum(
                    sum(value_of("alias", 6), name("copied", 2, i32_ty())),
                    value_of("transferred", 5),
                )),
            ],
        ),
        &[vec![], vec![]],
    );
    accepts_with(&program, &[vec![], vec![]]).expect("accepted");
    for item in &program.items {
        if let Item::Binding(binding) = item {
            assert_eq!(
                binding.operation,
                Some(BindingOperation::Initialize(OwningWrite::OwnershipTransfer))
            );
        }
    }
    let operations: Vec<Option<BindingOperation>> = main_body(&mut program)
        .iter()
        .filter_map(|stmt| match stmt {
            Stmt::Binding(binding) => Some(binding.operation),
            _ => None,
        })
        .collect();
    assert_eq!(
        operations,
        [
            Some(BindingOperation::Initialize(OwningWrite::InlineCopy)),
            Some(BindingOperation::Initialize(OwningWrite::InlineCopy)),
            Some(BindingOperation::Initialize(OwningWrite::OwnershipTransfer)),
            Some(BindingOperation::Initialize(OwningWrite::OwnershipTransfer)),
            Some(BindingOperation::Initialize(OwningWrite::OwnershipTransfer)),
            Some(BindingOperation::BindBorrowedAlias),
        ]
    );
}

#[test]
fn final_hir_gate_rejects_missing_or_drifted_binding_operation() {
    for operation in [
        None,
        Some(BindingOperation::BindBorrowedAlias),
        Some(BindingOperation::Initialize(OwningWrite::OwnershipTransfer)),
    ] {
        let mut program = settled(program(
            vec![],
            vec![
                val(1, "value", i32_ty(), integer(1)),
                give(name("value", 1, i32_ty())),
            ],
        ));
        binding(&mut program, "value").operation = operation;
        refuses(&program, "Binding operation");
    }
}

#[test]
fn binding_destruction_plan_is_frozen_and_fail_closed() {
    let mut program = settled(program(
        vec![],
        vec![
            val(1, "value", Ty::Str, text("live")),
            give(len(name("value", 1, Ty::Str))),
        ],
    ));
    accepts(&program).expect("accepted");
    let plan = binding(&mut program, "value").destroy_plan.as_mut().expect("a plan");
    assert_eq!(plan.nodes.len(), 1);
    assert!(plan.nodes[0].same(&DestroyNode::String));
    plan.nodes[0] = DestroyNode::Inline;
    refuses(&program, "Binding destruction plan");
}

#[test]
fn assignment_ownership_operations_are_frozen() {
    let boxed = || struct_ty("box");
    let mut program = settled(program(
        vec![definition("box", vec![(i32_ty(), true, Some(integer(0)))])],
        vec![
            var(1, "scalar", i32_ty(), integer(1)),
            var(2, "owner", boxed(), build("box", vec![])),
            var(3, "alias", i32_ty(), borrow(0, 1, i32_ty(), i32_ty())),
            assign(local(1, i32_ty()), integer(2)),
            assign(local(2, boxed()), build("box", vec![(0, integer(3))])),
            assign(local(3, i32_ty()), borrow(1, 1, i32_ty(), i32_ty())),
            assign(field_place(local(2, boxed()), 0, i32_ty()), integer(4)),
            give(name("scalar", 1, i32_ty())),
        ],
    ));
    accepts(&program).expect("accepted");
    let operations: Vec<AssignmentOperation> = main_body(&mut program)
        .iter()
        .filter_map(|stmt| match stmt {
            Stmt::Assign { operation, .. } => *operation,
            _ => None,
        })
        .collect();
    assert_eq!(
        operations,
        [
            AssignmentOperation::Replace(OwningWrite::InlineCopy),
            AssignmentOperation::Replace(OwningWrite::OwnershipTransfer),
            AssignmentOperation::RebindBorrowedAlias,
            AssignmentOperation::Replace(OwningWrite::InlineCopy),
        ]
    );
}

#[test]
fn final_hir_gate_rejects_assignment_operation_drift() {
    let mut program = settled(program(
        vec![],
        vec![
            var(1, "value", i32_ty(), integer(1)),
            assign(local(1, i32_ty()), integer(2)),
            give(name("value", 1, i32_ty())),
        ],
    ));
    let Stmt::Assign { operation, .. } = &mut main_body(&mut program)[1] else {
        panic!("an assignment")
    };
    *operation = Some(AssignmentOperation::RebindBorrowedAlias);
    refuses(&program, "Assignment operation");
}

/// func i32 length = (string value) -> return value.len()
fn length() -> Item {
    let body = Body::Single(Box::new(give(len(name("value", 41, Ty::Str)))));
    let value = literal(1, vec![(41, Ty::Str, Ty::Str)], body, i32_ty());
    top(40, "length", func_ty(vec![Ty::Str], i32_ty()), value)
}

fn length_of(value: Expr) -> Expr {
    let callee = name("length", 40, func_ty(vec![Ty::Str], i32_ty()));
    call(callee, CallTarget::FunctionValue, vec![value], i32_ty())
}

/// What `length` and `main` do with their parameters.
fn length_effects() -> [Vec<ParamEffect>; 2] {
    [vec![ParamEffect::ReadBorrow], vec![]]
}

/// val string owner = 'x'; return length(owner)
fn measured() -> CheckedProgram {
    settled_with(
        program(
            vec![length()],
            vec![
                val(1, "owner", Ty::Str, text("x")),
                give(length_of(name("owner", 1, Ty::Str))),
            ],
        ),
        &length_effects(),
    )
}

fn only_argument(e: &mut Expr) -> &mut CallArg {
    let Expr::Call { args, .. } = e else { panic!("a call") };
    &mut args[0]
}

#[test]
fn parameter_effects_freeze_signature_param_and_caller_pass() {
    let mut program = measured();
    accepts_with(&program, &length_effects()).expect("accepted");
    let length = top_binding(&mut program, "length");
    let Ty::Func { param_effects: Some(effects), .. } = &length.ty else {
        panic!("effects in the signature")
    };
    assert_eq!(effects.as_slice(), [ParamEffect::ReadBorrow]);
    let Expr::FuncLit { params, .. } = &length.value else { panic!("a function") };
    assert_eq!(params[0].effect, Some(ParamEffect::ReadBorrow));
    let torn_down = plan(&params[0].ty, span(), &StructTable::new()).expect("a plan");
    assert_eq!(torn_down.nodes.len(), 1);
    assert!(torn_down.nodes[0].same(&DestroyNode::String));
    let arg = only_argument(returned(main_body(&mut program)));
    assert!(matches!(arg.pass, Some(ArgumentPass::ReadBorrow { .. })));
}

#[test]
fn final_gate_rejects_argument_pass_drift() {
    let mut program = measured();
    only_argument(returned(main_body(&mut program))).pass = Some(ArgumentPass::Owned);
    let error = accepts_with(&program, &length_effects()).expect_err("refused");
    assert!(error.msg.contains("argument pass"), "{}", error.msg);
}

#[test]
fn temporaries_are_lent_for_the_call() {
    let mut program = settled_with(
        program(vec![length()], vec![give(length_of(text("temporary")))]),
        &length_effects(),
    );
    accepts_with(&program, &length_effects()).expect("accepted");
    let arg = only_argument(returned(main_body(&mut program)));
    assert!(matches!(
        arg.pass,
        Some(ArgumentPass::BorrowTemporary { kind: BorrowKind::Read })
    ));
}

fn set_only_effect(ty: &mut Ty, effect: ParamEffect) {
    let Ty::Func { param_effects, .. } = ty else { panic!("a function type") };
    *param_effects = Some(vec![effect]);
}

#[test]
fn final_gate_recomputes_parameter_effects_from_the_body() {
    let mut program =
        settled_with(program(vec![length()], vec![give(integer(0))]), &length_effects());
    accepts_with(&program, &length_effects()).expect("accepted");
    let length = top_binding(&mut program, "length");
    set_only_effect(&mut length.ty, ParamEffect::Owned);
    set_only_effect(&mut length.value.info_mut().ty, ParamEffect::Owned);
    let Expr::FuncLit { params, .. } = &mut length.value else { panic!("a function") };
    params[0].effect = Some(ParamEffect::Owned);
    let error = accepts_with(&program, &length_effects()).expect_err("refused");
    assert!(
        error.msg.contains("parameter effects") && error.msg.contains("fixed-point"),
        "{}",
        error.msg
    );
}

#[test]
fn final_gate_reports_what_a_body_was_found_to_break() {
    let program =
        settled_with(program(vec![length()], vec![give(integer(0))]), &length_effects());
    let found = || AliasError { msg: "moved twice".to_string(), span: span() };
    let order = function_order(&program);
    let known =
        |function: &Expr, _kinds: &KindTable| effects_of(function, &order, &length_effects());
    validate_resolved_hir(&program, reads, known).expect("accepted");
    // The kinds of the loans are found first.
    let broken = |_function: &Expr, _known: &KindTable| -> FunctionKinds { Err(found()) };
    let error = validate_resolved_hir(&program, broken, known).expect_err("refused");
    assert_eq!(error.msg, "moved twice");
    let broken = |_function: &Expr, _kinds: &KindTable| -> BodyEffects { Err(found()) };
    let error = validate_resolved_hir(&program, reads, broken).expect_err("refused");
    assert_eq!(error.msg, "moved twice");
}

#[test]
fn bodies_are_looked_at_under_the_kinds_of_all_loans() {
    let program = writing_capture();
    let order = function_order(&program);
    let loan = {
        let mut loan = None;
        for visit in program_nodes(every_node(), &program) {
            if let Node::Expr(Expr::FuncLit { captures, .. }, _) = visit.node {
                loan = captures.first().map(|capture| capture.loan_id);
            }
        }
        loan.expect("a capture")
    };
    let seen = |_function: &Expr, kinds: &KindTable| -> BodyEffects {
        assert_eq!(kinds.get(loan), Some(BorrowKind::Write));
        Ok(vec![])
    };
    let found = infer_bodies(&program, writes, seen).expect("found");
    assert_eq!(found.len(), order.len());
}

fn returned_by(function: &mut Expr) -> &mut Expr {
    let Expr::FuncLit { body, .. } = function else { panic!("a function") };
    let Body::Single(stmt) = body.as_mut() else { panic!("a single statement") };
    let Stmt::Return { value: Some(value) } = stmt.as_mut() else { panic!("a return") };
    value
}

/// func T expose = (T value) -> return value
/// val T owner = ..; val T alias = expose(owner); return ..
fn exposed(items: Vec<Item>, ty: fn() -> Ty, owner: Expr, last: Expr) -> CheckedProgram {
    let expose = || func_ty(vec![ty()], ty());
    let body = Body::Single(Box::new(give(name("value", 41, ty()))));
    let mut all = items;
    all.push(top(40, "expose", expose(), literal(1, vec![(41, ty(), ty())], body, ty())));
    let taken = call(
        name("expose", 40, expose()),
        CallTarget::FunctionValue,
        vec![name("owner", 1, ty())],
        ty(),
    );
    settled_with(
        program(
            all,
            vec![val(1, "owner", ty(), owner), val(2, "alias", ty(), taken), give(last)],
        ),
        &length_effects(),
    )
}

#[test]
fn borrowed_return_freezes_signature_call_source_and_alias_relation() {
    let boxed = || struct_ty("box");
    let mut program = exposed(
        vec![definition("box", vec![(i32_ty(), true, Some(integer(1)))])],
        boxed,
        build("box", vec![]),
        field(name("alias", 2, boxed()), 0, i32_ty()),
    );
    accepts_with(&program, &length_effects()).expect("accepted");
    let expose = top_binding(&mut program, "expose");
    let Ty::Func { return_effect: Some(effect), .. } = &expose.ty else {
        panic!("an effect in the signature")
    };
    assert_eq!(*effect, ReturnEffect::Borrowed(ReturnBorrowSource::Parameter(0)));
    let value = returned_by(&mut expose.value);
    assert!(matches!(
        value.info().return_pass.as_deref(),
        Some(ReturnPass::BorrowPlace { .. })
    ));
    let alias = binding(&mut program, "alias");
    assert_eq!(alias.relation, Some(StorageRelation::Borrowed));
    let Expr::Call { result, .. } = &alias.value else { panic!("a call") };
    match result.as_deref() {
        Some(CallResult::Borrowed { source, kind: Some(_), .. }) => {
            assert_eq!(source.root_binding_id(), BindingId(1));
        }
        _ => panic!("a borrowed result"),
    }
}

#[test]
fn final_gate_rejects_return_effect_drift() {
    let string = || Ty::Str;
    let mut program =
        exposed(vec![], string, text("x"), len(name("alias", 2, Ty::Str)));
    accepts_with(&program, &length_effects()).expect("accepted");
    let value = returned_by(&mut top_binding(&mut program, "expose").value);
    value.info_mut().return_pass = Some(Box::new(ReturnPass::OwnedValue));
    let error = accepts_with(&program, &length_effects()).expect_err("refused");
    assert!(error.msg.contains("ReturnPass"), "{}", error.msg);
}

#[test]
fn final_gate_rejects_borrowed_result_permission_drift() {
    // val i32 shared = 1; func i32 expose = () -> return borrow shared
    // var i32 alias = expose(); return alias
    let expose = || func_ty(vec![], i32_ty());
    let body = Body::Single(Box::new(give(borrow(0, 30, i32_ty(), i32_ty()))));
    let items = vec![
        Item::Binding(Box::new(declared(30, BindKind::Val, "shared", i32_ty(), integer(1)))),
        top(40, "expose", expose(), literal(1, vec![], body, i32_ty())),
    ];
    let taken =
        call(name("expose", 40, expose()), CallTarget::FunctionValue, vec![], i32_ty());
    let mut program = settled_with(
        program(
            items,
            vec![var(1, "alias", i32_ty(), taken), give(name("alias", 1, i32_ty()))],
        ),
        &[vec![], vec![]],
    );
    accepts_with(&program, &[vec![], vec![]]).expect("accepted");
    let alias = binding(&mut program, "alias");
    assert_eq!(alias.relation, Some(StorageRelation::Borrowed));
    let Expr::Call { result, .. } = &mut alias.value else { panic!("a call") };
    match result.as_deref_mut() {
        Some(CallResult::Borrowed { source, source_writable, .. }) => {
            assert_eq!(source.root_binding_id(), BindingId(30));
            *source_writable = true;
        }
        _ => panic!("a borrowed result"),
    }
    let error = accepts_with(&program, &[vec![], vec![]]).expect_err("refused");
    assert!(error.msg.contains("call result plan"), "{}", error.msg);
}

fn local_function(id: u32, name: &str, value: Expr, ret: Ty) -> Stmt {
    Stmt::Binding(declared(id, BindKind::Func, name, func_ty(vec![], ret), value))
}

fn call_local(id: u32, text: &str, ret: fn() -> Ty) -> Expr {
    let callee = name(text, id, func_ty(vec![], ret()));
    call(callee, CallTarget::FunctionValue, vec![], ret())
}

/// val string owner = 'x'; func i32 read = () -> return owner.len(); return read()
fn reading_capture() -> CheckedProgram {
    let body = Body::Single(Box::new(give(len(name("owner", 1, Ty::Str)))));
    settled_with(
        program(
            vec![],
            vec![
                val(1, "owner", Ty::Str, text("x")),
                local_function(2, "read", literal(1, vec![], body, i32_ty()), i32_ty()),
                give(call_local(2, "read", i32_ty)),
            ],
        ),
        &[vec![], vec![]],
    )
}

/// var i32 owner = 1; func unit change = () -> increase owner; change(); return owner
fn writing_capture() -> CheckedProgram {
    let step = builtin("increase", BuiltinCall::Increase, name("owner", 1, i32_ty()), Ty::Unit);
    let body = Body::Single(Box::new(run(step)));
    settled_as(
        program(
            vec![],
            vec![
                var(1, "owner", i32_ty(), integer(1)),
                local_function(2, "change", literal(1, vec![], body, Ty::Unit), Ty::Unit),
                run(call_local(2, "change", || Ty::Unit)),
                give(name("owner", 1, i32_ty())),
            ],
        ),
        &[vec![], vec![]],
        writes,
    )
}

fn captures_of(e: &mut Expr) -> &mut Vec<alias_sema::model::Capture> {
    let Expr::FuncLit { captures, .. } = e else { panic!("a function") };
    captures
}

#[test]
fn capture_freezes_root_place_id_and_read_kind() {
    let mut program = reading_capture();
    accepts_with(&program, &[vec![], vec![]]).expect("accepted");
    let captures = captures_of(&mut binding(&mut program, "read").value);
    assert_eq!(captures.len(), 1);
    assert_eq!(captures[0].kind, Some(BorrowKind::Read));
    let Place::Local { binding_id, .. } = &captures[0].source else { panic!("a local") };
    assert_eq!(*binding_id, captures[0].binding_id);
    assert_eq!(*binding_id, BindingId(1));
}

#[test]
fn capture_body_write_freezes_write_kind() {
    let mut program = writing_capture();
    accepts_as(&program, &[vec![], vec![]], writes).expect("accepted");
    let captures = captures_of(&mut binding(&mut program, "change").value);
    assert_eq!(captures[0].kind, Some(BorrowKind::Write));
}

#[test]
fn final_gate_rejects_capture_kind_drift() {
    let mut program = writing_capture();
    captures_of(&mut binding(&mut program, "change").value)[0].kind = Some(BorrowKind::Read);
    let error = accepts_as(&program, &[vec![], vec![]], writes).expect_err("refused");
    assert!(
        error.msg.contains("capture loan kind") && error.msg.contains("漂移"),
        "{}",
        error.msg
    );
}

#[test]
fn final_gate_rejects_capture_source_type_drift() {
    let mut program = reading_capture();
    let captures = captures_of(&mut binding(&mut program, "read").value);
    let Place::Local { info, .. } = &mut captures[0].source else { panic!("a local") };
    info.ty = i32_ty();
    let error = accepts_with(&program, &[vec![], vec![]]).expect_err("refused");
    assert!(error.msg.contains("capture") && error.msg.contains("漂移"), "{}", error.msg);
}

/// func i32 point.bump = (i32 amount) -> return self.x + amount
fn bump() -> Item {
    let full = || func_ty(vec![struct_ty("point"), i32_ty()], i32_ty());
    let this = name("self", 52, struct_ty("point"));
    let value = give(sum(field(this, 0, i32_ty()), name("amount", 51, i32_ty())));
    let body = Body::Single(Box::new(value));
    let mut value = literal(1, vec![(51, i32_ty(), i32_ty())], body, i32_ty());
    value.info_mut().ty = full();
    if let Expr::FuncLit { implicit_bindings, .. } = &mut value {
        implicit_bindings.push(BindingId(52));
    }
    let mut binding = declared(50, BindKind::Func, "bump", full(), value);
    binding.owner = BindingOwner::Method {
        method_id: MethodId(3),
        self_id: BindingId(52),
        receiver: struct_ty("point"),
    };
    Item::Binding(Box::new(binding))
}

fn bumped(value: Expr) -> Expr {
    let target = MethodTarget::User {
        receiver: struct_ty("point"),
        id: MethodId(3),
        param_effects: None,
        return_effect: None,
    };
    method(value, target, vec![integer(1)], i32_ty())
}

/// What `bump` does with itself and its parameter, and what `main` does.
fn bump_effects() -> [Vec<ParamEffect>; 2] {
    [vec![ParamEffect::ReadBorrow, ParamEffect::Owned], vec![]]
}

#[test]
fn resolved_hir_rejects_unknown_user_method_id() {
    let mut program = settled_with(
        program(
            vec![point(1, true), bump()],
            vec![
                val(1, "p", struct_ty("point"), build("point", vec![])),
                give(bumped(name("p", 1, struct_ty("point")))),
            ],
        ),
        &bump_effects(),
    );
    accepts_with(&program, &bump_effects()).expect("accepted");
    let Expr::MethodCall { target: MethodTarget::User { id, .. }, .. } =
        returned(main_body(&mut program))
    else {
        panic!("a method call")
    };
    *id = MethodId(u32::MAX);
    let error = alias_sema::validate::validate_resolved_hir(&program).expect_err("refused");
    assert!(error.msg.contains("未知 MethodId"), "{}", error.msg);
}

#[test]
fn checked_hir_has_exact_types_and_stable_targets() {
    let helper = || func_ty(vec![i32_ty()], i32_ty());
    let echo = literal(
        2,
        vec![(61, i32_ty(), i32_ty())],
        Body::Single(Box::new(give(name("value", 61, i32_ty())))),
        i32_ty(),
    );
    let capture = literal(
        3,
        vec![],
        Body::Single(Box::new(give(name("outer", 1, i32_ty())))),
        i32_ty(),
    );
    let p = || name("p", 3, struct_ty("point"));
    let x_of_p = done(Expr::ReadPlace {
        source: Box::new(field_place(local(3, struct_ty("point")), 0, i32_ty())),
        plan: DeepClonePlan::Inline,
        span: span(),
        info: info(i32_ty()),
    });
    let mut effects = bump_effects().to_vec();
    effects.insert(1, vec![ParamEffect::Owned]);
    effects.push(vec![]);
    let program = program(
        vec![point(1, true), bump(), top(60, "helper", helper(), echo)],
        vec![
            val(1, "outer", i32_ty(), integer(4)),
            local_function(2, "capture", capture, i32_ty()),
            val(3, "p", struct_ty("point"), build("point", vec![])),
            val(4, "a", i32_ty(), x_of_p),
            val(5, "b", i32_ty(), bumped(p())),
            val(
                6,
                "c",
                i32_ty(),
                call(
                    name("helper", 60, helper()),
                    CallTarget::FunctionValue,
                    vec![name("outer", 1, i32_ty())],
                    i32_ty(),
                ),
            ),
            give(sum(
                sum(
                    sum(name("a", 4, i32_ty()), name("b", 5, i32_ty())),
                    name("c", 6, i32_ty()),
                ),
                call_local(2, "capture", i32_ty),
            )),
        ],
    );
    let program = settled_with(program, &effects);
    accepts_with(&program, &effects).expect("accepted");
    let (mut saw_field, mut saw_method, mut saw_capture) = (false, false, false);
    let evaluated = Walk { every_callee: false, ..every_node() };
    for visit in program_nodes(evaluated, &program) {
        if let Node::Expr(e, _) = visit.node {
            assert!(!e.ty().contains_unknown());
            match e {
                Expr::Ident(_, id, _, _) => assert!(id.is_some(), "a name without a variable"),
                Expr::Field { field_index, .. } => {
                    saw_field = true;
                    assert_eq!(*field_index, 0);
                }
                Expr::MethodCall { target: MethodTarget::User { .. }, .. } => saw_method = true,
                Expr::FuncLit { captures, .. } => saw_capture |= !captures.is_empty(),
                _ => {}
            }
        }
    }
    assert!(saw_field && saw_method && saw_capture);
}

fn every_node() -> Walk {
    Walk { every_callee: true, into_functions: true, value_first: false, subject_last: false }
}

/// Functions inside each other; the innermost one adds up a variable of each of them.
fn nested(level: u32, depth: u32) -> Expr {
    let mut stmts = vec![val(100 + level, &format!("x{}", level), i32_ty(), integer(u64::from(level) + 1))];
    if level + 1 == depth {
        let mut total = name("root", 99, i32_ty());
        for i in 0..depth {
            total = sum(total, name(&format!("x{}", i), 100 + i, i32_ty()));
        }
        stmts.push(give(total));
    } else {
        let inner = format!("f{}", level + 1);
        stmts.push(local_function(201 + level, &inner, nested(level + 1, depth), i32_ty()));
        stmts.push(give(call_local(201 + level, &inner, i32_ty)));
    }
    literal(level + 1, vec![], Body::Block(stmts), i32_ty())
}

#[test]
fn deep_capture_and_type_walk_do_not_depend_on_host_recursion() {
    let depth = 32;
    let program = settled_with(
        program(
            vec![],
            vec![
                val(99, "root", i32_ty(), integer(7)),
                local_function(200, "f0", nested(0, depth), i32_ty()),
                give(call_local(200, "f0", i32_ty)),
            ],
        ),
        &vec![vec![]; 33],
    );
    accepts_with(&program, &vec![vec![]; 33]).expect("accepted");
    let mut visited = 0;
    let mut level: usize = 0;
    for visit in program_nodes(every_node(), &program) {
        if let Node::Expr(e, _) = visit.node {
            assert!(!e.ty().contains_unknown());
            visited += 1;
            if let Expr::FuncLit { captures, .. } = e {
                // The function at each level captures what all levels around it declare.
                assert_eq!(captures.len(), level);
                level += 1;
            }
        }
    }
    assert!(visited > depth);
    assert_eq!(level, 33);
}

#[test]
fn shallow_freezes_recursive_plan_and_value_ownership() {
    let leaf = || struct_ty("leaf");
    let boxed = || struct_ty("box");
    let wrapped = || result(leaf(), i32_ty());
    let leaf_plan = || ShallowClonePlan::Struct {
        name: "leaf".to_string(),
        fields: vec![ShallowClonePlan::Inline],
    };
    let box_of =
        || ShallowClonePlan::Struct { name: "box".to_string(), fields: vec![leaf_plan()] };
    let either = || ShallowClonePlan::Result {
        ok: Box::new(leaf_plan()),
        err: Box::new(ShallowClonePlan::Inline),
    };
    let items = || {
        vec![
            definition("leaf", vec![(i32_ty(), true, Some(integer(1)))]),
            definition("box", vec![(leaf(), false, Some(build("leaf", vec![])))]),
        ]
    };
    let structs = structs_of(items());
    let copy = |value: Expr, ty: Ty| {
        let plan = shallow_clone_root_plan_with(&ty, span(), &structs).expect("a plan");
        builtin("shallow", BuiltinCall::ShallowClone(plan), value, ty)
    };
    let item = field(name("copied", 2, boxed()), 0, leaf());
    let mut program = settled(program(
        items(),
        vec![
            val(1, "original", boxed(), build("box", vec![])),
            val(2, "copied", boxed(), copy(name("original", 1, boxed()), boxed())),
            val(3, "wrapped", wrapped(), ok(build("leaf", vec![]), wrapped())),
            val(
                4,
                "copied_result",
                wrapped(),
                copy(name("wrapped", 3, wrapped()), wrapped()),
            ),
            give(field(item, 0, i32_ty())),
        ],
    ));
    accepts(&program).expect("the recorded plans are the right ones");
    let copied = binding(&mut program, "copied");
    assert!(shallow_plan(&mut copied.value).same(&box_of()));
    assert_eq!(copied.value.category(), Some(ExprCategory::Value(ValueCategory::OwnedTemporary)));
    assert_eq!(copied.value.ownership_capability(), Some(OwnershipCapability::Available));
    assert_eq!(copied.relation, Some(StorageRelation::Owning));
    let other = binding(&mut program, "copied_result");
    assert!(shallow_plan(&mut other.value).same(&either()));
}

/// What the use of variables and loans in a `main` breaks.
fn flow_refusal(stmts: Vec<Stmt>) -> String {
    match ownership_flow::validate(&program(vec![], stmts)) {
        Ok(()) => panic!("must be refused"),
        Err(error) => error.msg,
    }
}

fn yes() -> Expr {
    done(Expr::Bool(true, span(), info(Ty::Bool)))
}

#[test]
fn moved_values_are_gone() {
    let message = flow_refusal(vec![
        val(1, "a", Ty::Str, text("x")),
        val(2, "b", Ty::Str, transfer(1, Ty::Str, Ty::Str)),
        give(len(name("a", 1, Ty::Str))),
    ]);
    assert_eq!(message, "值已被 move，重新初始化前不能读取");
}

#[test]
fn values_moved_on_one_path_are_gone() {
    let taken = vec![val(2, "b", Ty::Str, transfer(1, Ty::Str, Ty::Str))];
    let message = flow_refusal(vec![
        val(1, "a", Ty::Str, text("x")),
        Stmt::If { branches: vec![(yes(), taken)], else_body: None },
        give(len(name("a", 1, Ty::Str))),
    ]);
    assert_eq!(message, "值已被 move，重新初始化前不能读取");
}

#[test]
fn loops_carry_moves_around() {
    let body = vec![val(2, "b", Ty::Str, transfer(1, Ty::Str, Ty::Str))];
    let message = flow_refusal(vec![
        val(1, "a", Ty::Str, text("x")),
        Stmt::While { cond: yes(), body },
        give(integer(0)),
    ]);
    assert_eq!(message, "ownership capability 已被 move");
}

#[test]
fn new_values_bring_variables_back() {
    let program = program(
        vec![],
        vec![
            var(1, "a", Ty::Str, text("x")),
            val(2, "b", Ty::Str, transfer(1, Ty::Str, Ty::Str)),
            assign(local(1, Ty::Str), text("y")),
            give(len(name("a", 1, Ty::Str))),
        ],
    );
    ownership_flow::validate(&program).expect("in order");
}

#[test]
fn lent_values_stay() {
    let message = flow_refusal(vec![
        val(1, "a", Ty::Str, text("x")),
        val(2, "alias", Ty::Str, borrow(0, 1, Ty::Str, Ty::Str)),
        val(3, "b", Ty::Str, transfer(1, Ty::Str, Ty::Str)),
        give(len(name("alias", 2, Ty::Str))),
    ]);
    assert_eq!(message, "move source 与 live loan 冲突");
}

#[test]
fn loans_end_with_their_last_use() {
    let mut program = program(
        vec![],
        vec![
            val(1, "a", Ty::Str, text("x")),
            val(2, "alias", Ty::Str, borrow(0, 1, Ty::Str, Ty::Str)),
            run(len(name("alias", 2, Ty::Str))),
            val(3, "b", Ty::Str, transfer(1, Ty::Str, Ty::Str)),
            give(len(name("b", 3, Ty::Str))),
        ],
    );
    ownership_flow::finalize(&mut program).expect("in order");
    ownership_flow::validate(&program).expect("in order");
}

#[test]
fn owners_wait_for_writing_aliases() {
    let step = builtin("increase", BuiltinCall::Increase, name("alias", 2, i32_ty()), Ty::Unit);
    let message = flow_refusal(vec![
        var(1, "a", i32_ty(), integer(1)),
        val(2, "alias", i32_ty(), borrow(0, 1, i32_ty(), i32_ty())),
        run(name("a", 1, i32_ty())),
        run(step),
        give(integer(0)),
    ]);
    assert_eq!(message, "owner access 与 live loan 冲突");
}

#[test]
fn final_gate_rejects_a_repeated_variable() {
    let mut program = moved();
    binding(&mut program, "transferred").binding_id = BindingId(1);
    assert!(accepts(&program).is_err());
    let error = alias_sema::binding_contract::validate(&program).expect_err("refused");
    assert!(error.msg.contains("BindingId 重复"), "{}", error.msg);
}

/// val array<i32> values = [1]; val iterator<i32> it = values.iterator()
/// for i32 item in it { println item }; return 0
fn iterated() -> CheckedProgram {
    let iterator = || Ty::Iterator(Box::new(i32_ty()));
    let started =
        method(name("values", 1, array(i32_ty())), MethodTarget::ArrayIterator, vec![], iterator());
    let shown = builtin("println", BuiltinCall::Println, name("item", 3, i32_ty()), Ty::Unit);
    settled(program(
        vec![],
        vec![
            val(1, "values", array(i32_ty()), list(vec![integer(1)], i32_ty())),
            val(2, "it", iterator(), started),
            Stmt::For {
                binding_id: BindingId(3),
                ty: i32_ty(),
                element_plan: DeepClonePlan::Inline,
                iterable: name("it", 2, iterator()),
                body: vec![run(shown)],
                span: span(),
            },
            give(integer(0)),
        ],
    ))
}

#[test]
fn iterator_receiver_pass_is_required_and_rechecked_at_the_final_gate() {
    for missing in [true, false] {
        let mut program = iterated();
        let Expr::MethodCall { receiver_pass, .. } = &mut binding(&mut program, "it").value else {
            panic!("a method call")
        };
        let Some(ArgumentPass::ReadBorrow { loan_id, source }) = receiver_pass.take() else {
            panic!("a loan for reading")
        };
        assert_eq!(source.root_binding_id(), BindingId(1));
        if !missing {
            *receiver_pass = Some(ArgumentPass::WriteBorrow { loan_id, source });
        }
        assert!(accepts(&program).is_err());
    }
}

#[test]
fn other_builtin_methods_carry_no_pass() {
    let mut program = moved();
    let Expr::MethodCall { receiver_pass, .. } = returned(main_body(&mut program)) else {
        panic!("a method call")
    };
    assert!(receiver_pass.is_none());
    *receiver_pass = Some(ArgumentPass::Owned);
    refuses(&program, "builtin method call 携带 user parameter pass");
}

#[test]
fn indices_are_tested_unless_they_are_written_out() {
    // [10, 20][1]
    let whole = list(vec![integer(10), integer(20)], i32_ty());
    let found = array_index(&whole, &integer(1), span()).expect("in range");
    assert_eq!(found, RuntimeCheckRequirement::Proven);
    let error = array_index(&whole, &integer(2), span()).expect_err("out of range");
    assert_eq!(error.msg, "数组字面量的常量下标越界");
    // values[at], values[1]
    let at = name("at", 2, i32_ty());
    let found = array_index(&whole, &at, span()).expect("unknown");
    assert_eq!(found, RuntimeCheckRequirement::Required);
    let values = local(1, array(i32_ty()));
    assert_eq!(array_place_index(&values, &at), RuntimeCheckRequirement::Required);
    assert_eq!(array_place_index(&values, &integer(1)), RuntimeCheckRequirement::Required);
}

#[test]
fn programs_without_an_entry_are_refused() {
    let mut program = moved();
    program.items.clear();
    let error = settle_as(program, &[], reads).expect_err("refused");
    assert!(error.msg.contains("main BindingId 不存在"), "{}", error.msg);
}
