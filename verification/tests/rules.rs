//! The rules that single types, literals, patterns, plans and declarations follow.

use alias_sema::argument_passes::{loan_for_site, PassSite, SiteLoans};
use alias_sema::ast;
use alias_sema::body_effects::BodyEffects;
use alias_sema::capture_kinds::FunctionKinds;
use alias_sema::checker_state::{
    Answer, Context, ExprCheckError, FunctionAnswer, Notes, Scope, Structs,
};
use alias_sema::declarations::{method_def, struct_def, validate_main, DeclNotes};
use alias_sema::deep_clone::deep_clone_plan_with;
use alias_sema::destruction::plan;
use alias_sema::diagnostics::signed_text;
use alias_sema::effects::{initial_effect, join_effect};
use alias_sema::facts::{
    ensure_facts_consumed, take_required, LowerBorrowInfo, LowerCallTarget, LowerExprInfo,
    LowerFacts, LowerPlaceInfo, Table,
};
use alias_sema::gate::validate_resolved_hir;
use alias_sema::ids::IdSet;
use alias_sema::literals::{
    default_negative_int_ty, default_positive_int_ty, int_literal_fits, literal_slot_unify, Slot,
};
use alias_sema::lower::lower_call_target;
use alias_sema::lower_program::lower;
use alias_sema::match_rules::{check_covered, check_pattern, join_arm, Cover};
use alias_sema::model::{
    BinOp, BindKind, Binding, BindingOperation, Body, BorrowKind, CallTarget, CheckedProgram,
    CtorKind, DestroyNode, Expr, ExprCategory, Item, MethodTarget, OwnershipCapability, Pattern,
    Place, RuntimeCheckRequirement, Stmt, StorageRelation, ValueCategory,
};
use alias_sema::operators::{binary_result_type, conversion_exists, require_value};
use alias_sema::ownership_flow::{dynamic_owner, KindTable, OwnershipState};
use alias_sema::shallow_clone::shallow_clone_root_plan_with;
use alias_sema::structs::StructTable;
use alias_sema::types::{
    number_text, types_match, AliasError, AliasResult, BindingId, FloatW, FunctionId, IntW, LoanId,
    MethodId, ParamEffect, Span, Ty,
};

fn span() -> Span {
    Span { start: 4, end: 8 }
}

fn i32_ty() -> Ty {
    Ty::Int(IntW::W32)
}

fn u8_ty() -> Ty {
    Ty::UInt(IntW::W8)
}

fn array(element: Ty) -> Ty {
    Ty::Array(Box::new(element))
}

fn fallible(good: Ty, bad: Ty) -> Ty {
    Ty::Result(Box::new(good), Box::new(bad))
}

fn func_ty(params: Vec<Ty>, ret: Ty) -> Ty {
    Ty::Func { params, param_effects: None, ret: Box::new(ret), return_effect: None }
}

fn message<T>(result: AliasResult<T>) -> String {
    match result {
        Ok(_) => panic!("must be refused"),
        Err(error) => error.msg,
    }
}

#[test]
fn types_have_names() {
    assert_eq!(i32_ty().name(), "i32");
    assert_eq!(Ty::UInt(IntW::W64).name(), "u64");
    assert_eq!(Ty::Float(FloatW::F64).name(), "f64");
    assert_eq!(Ty::Bool.name(), "bool");
    assert_eq!(array(Ty::Str).name(), "array<string>");
    assert_eq!(Ty::Struct("point".to_string()).name(), "point");
}

#[test]
fn open_types_match_and_differ() {
    assert!(types_match(&array(i32_ty()), &array(Ty::Unknown)));
    assert!(!types_match(&array(i32_ty()), &array(Ty::Str)));
    assert!(!array(i32_ty()).same(&array(Ty::Unknown)));
    assert!(array(i32_ty()).same(&array(i32_ty())));
    assert!(array(array(Ty::Unknown)).contains_unknown());
    assert!(!array(array(Ty::Str)).contains_unknown());
}

#[test]
fn numbers_are_written_in_decimal() {
    assert_eq!(number_text(0), "0");
    assert_eq!(number_text(18446744073709551615), "18446744073709551615");
    assert_eq!(signed_text(-170), "-170");
    assert_eq!(signed_text(42), "42");
}

#[test]
fn literals_fit_their_ranges() {
    let i8_ty = Ty::Int(IntW::W8);
    assert!(int_literal_fits(&i8_ty, 127, false));
    assert!(!int_literal_fits(&i8_ty, 128, false));
    assert!(int_literal_fits(&i8_ty, 128, true));
    assert!(!int_literal_fits(&i8_ty, 129, true));
    assert!(int_literal_fits(&u8_ty(), 255, false));
    assert!(!int_literal_fits(&u8_ty(), 256, false));
    assert!(!int_literal_fits(&u8_ty(), 1, true));
    assert!(int_literal_fits(&Ty::UInt(IntW::W64), u64::MAX, false));
    assert!(!int_literal_fits(&Ty::Int(IntW::W64), u64::MAX, false));
}

#[test]
fn literals_have_a_type_of_their_own() {
    assert_eq!(default_positive_int_ty(2147483647).name(), "i32");
    assert_eq!(default_positive_int_ty(2147483648).name(), "i64");
    assert_eq!(default_positive_int_ty(9223372036854775808).name(), "u64");
    assert_eq!(default_negative_int_ty(2147483648).expect("fits").name(), "i32");
    assert_eq!(default_negative_int_ty(2147483649).expect("fits").name(), "i64");
    assert!(default_negative_int_ty(9223372036854775809).is_none());
}

#[test]
fn slots_take_literals() {
    let seven = ast::Expr { id: 1, span: span(), kind: ast::ExprKind::Int(7) };
    assert!(matches!(literal_slot_unify(&u8_ty(), &seven), Slot::Takes));
    assert!(matches!(literal_slot_unify(&Ty::Str, &seven), Slot::Other));
    let neg = ast::Expr {
        id: 2,
        span: span(),
        kind: ast::ExprKind::Neg { expr: Box::new(seven) },
    };
    match literal_slot_unify(&u8_ty(), &neg) {
        Slot::OutOfRange(text) => assert_eq!(text, "-7"),
        _ => panic!("out of range"),
    }
    assert!(matches!(literal_slot_unify(&i32_ty(), &neg), Slot::Takes));
}

#[test]
fn operators_give_their_types() {
    let ty = binary_result_type(BinOp::Add, &i32_ty(), &i32_ty(), span()).expect("adds");
    assert_eq!(ty.name(), "i32");
    let ty = binary_result_type(BinOp::Le, &u8_ty(), &u8_ty(), span()).expect("compares");
    assert_eq!(ty.name(), "bool");
    let text = message(binary_result_type(BinOp::Add, &i32_ty(), &u8_ty(), span()));
    assert!(text.contains("禁止隐式混算"), "{}", text);
    let text = message(binary_result_type(BinOp::Mul, &Ty::Bool, &i32_ty(), span()));
    assert!(text.contains("运算符不适用于"), "{}", text);
    // The order of the operands plays no part.
    assert!(binary_result_type(BinOp::Mul, &i32_ty(), &Ty::Bool, span()).is_err());
}

#[test]
fn conversions_join_numbers_and_texts() {
    assert!(conversion_exists(&i32_ty(), &u8_ty()));
    assert!(conversion_exists(&u8_ty(), &i32_ty()));
    assert!(conversion_exists(&Ty::Bool, &Ty::Str));
    assert!(!conversion_exists(&Ty::Str, &i32_ty()));
    assert!(!conversion_exists(&Ty::Unit, &Ty::Str));
    assert!(!conversion_exists(&Ty::Bool, &i32_ty()));
}

#[test]
fn unit_is_no_value() {
    assert_eq!(require_value(i32_ty(), span()).expect("a value").name(), "i32");
    assert_eq!(message(require_value(Ty::Unit, span())), "无返回值表达式不能用于值位置");
}

fn whole(value: i128) -> Pattern {
    Pattern::Int { value, span: span() }
}

#[test]
fn patterns_cover_a_bool() {
    let mut cover = Cover::new();
    let yes = Pattern::Bool { value: true, span: span() };
    assert!(check_pattern(&Ty::Bool, &yes, &mut cover).expect("new").is_none());
    let text = message(check_covered(&Ty::Bool, &cover, span()));
    assert_eq!(text, "match bool 必须覆盖 true 与 false，或提供兜底 Pattern");
    let again = Pattern::Bool { value: true, span: span() };
    assert_eq!(message(check_pattern(&Ty::Bool, &again, &mut cover)), "match 重复 Pattern: true");
    let no = Pattern::Bool { value: false, span: span() };
    check_pattern(&Ty::Bool, &no, &mut cover).expect("new");
    check_covered(&Ty::Bool, &cover, span()).expect("covered");
    let rest = Pattern::Wildcard { span: span() };
    assert_eq!(message(check_pattern(&Ty::Bool, &rest, &mut cover)), "match 存在不可达 Pattern");
}

#[test]
fn patterns_cover_a_result() {
    let subject = fallible(Ty::Str, i32_ty());
    let mut cover = Cover::new();
    let good = Pattern::Constructor {
        ctor: CtorKind::OkCtor,
        binding: Some("value".to_string()),
        span: span(),
    };
    let (name, ty) = check_pattern(&subject, &good, &mut cover).expect("new").expect("binds");
    assert_eq!(name, "value");
    assert_eq!(ty.name(), "string");
    let text = message(check_covered(&subject, &cover, span()));
    assert_eq!(text, "match 必须同时覆盖 ok 与 err，或提供兜底 Pattern");
    let bad = Pattern::Constructor { ctor: CtorKind::ErrCtor, binding: None, span: span() };
    check_pattern(&subject, &bad, &mut cover).expect("new");
    check_covered(&subject, &cover, span()).expect("covered");
    let mut cover = Cover::new();
    let text = message(check_pattern(&i32_ty(), &bad, &mut cover));
    assert!(text.contains("构造器 Pattern 需要 result 主语"), "{}", text);
}

#[test]
fn patterns_on_numbers_need_a_rest() {
    let mut cover = Cover::new();
    check_pattern(&u8_ty(), &whole(255), &mut cover).expect("fits");
    assert_eq!(message(check_pattern(&u8_ty(), &whole(255), &mut cover)), "match 重复 Pattern: 255");
    let text = message(check_pattern(&u8_ty(), &whole(256), &mut cover));
    assert!(text.contains("超出 u8 的表示范围"), "{}", text);
    let text = message(check_pattern(&u8_ty(), &whole(-1), &mut cover));
    assert!(text.contains("超出 u8 的表示范围"), "{}", text);
    let text = message(check_pattern(&Ty::Str, &whole(1), &mut Cover::new()));
    assert!(text.contains("整数字面量 Pattern 不适用于"), "{}", text);
    let text = message(check_covered(&u8_ty(), &cover, span()));
    assert!(text.contains("兜底"), "{}", text);
    let rest = Pattern::Binding { name: "n".to_string(), span: span() };
    let (name, ty) = check_pattern(&u8_ty(), &rest, &mut cover).expect("new").expect("binds");
    assert_eq!((name.as_str(), ty.name().as_str()), ("n", "u8"));
    check_covered(&u8_ty(), &cover, span()).expect("covered");
}

#[test]
fn arms_have_one_type() {
    let first = join_arm(None, i32_ty(), span()).expect("first");
    assert_eq!(first.name(), "i32");
    let text = message(join_arm(Some(first), Ty::Str, span()));
    assert!(text.contains("match 各臂类型不一致"), "{}", text);
}

#[test]
fn plans_follow_the_fields() {
    let mut structs = StructTable::new();
    structs.insert("leaf".to_string(), vec![Ty::Str, i32_ty()]);
    structs.insert("tree".to_string(), vec![array(Ty::Struct("tree".to_string()))]);
    let leaf = Ty::Struct("leaf".to_string());
    let made = plan(&leaf, span(), &structs).expect("a plan");
    assert_eq!(made.nodes.len(), 3);
    assert!(made.nodes[0]
        .same(&DestroyNode::Struct { name: "leaf".to_string(), fields: vec![1, 2] }));
    assert!(made.nodes[1].same(&DestroyNode::String));
    assert!(made.nodes[2].same(&DestroyNode::Inline));
    assert!(message(plan(&Ty::Unknown, span(), &structs)).contains("destruction"));
    let missing = Ty::Struct("nobody".to_string());
    assert!(plan(&missing, span(), &structs).is_err());

    let tree = Ty::Struct("tree".to_string());
    let text = message(deep_clone_plan_with(&tree, span(), &structs));
    assert!(text.contains("DeepCloneable 结构体依赖出现递归"), "{}", text);
    let text = message(deep_clone_plan_with(&missing, span(), &structs));
    assert!(text.contains("clone 引用未知结构体"), "{}", text);
    let text = message(deep_clone_plan_with(&Ty::Unit, span(), &structs));
    assert_eq!(text, "unit 不是可 clone 的值类型");
    let text = message(shallow_clone_root_plan_with(&leaf, span(), &structs));
    assert!(text.contains("不支持 shallow"), "{}", text);
    let text = message(shallow_clone_root_plan_with(&missing, span(), &structs));
    assert!(text.contains("shallow 引用未知结构体"), "{}", text);
    let text = message(shallow_clone_root_plan_with(&i32_ty(), span(), &structs));
    assert!(text.contains("不提供 shallow"), "{}", text);
}

#[test]
fn effects_only_grow() {
    assert_eq!(initial_effect(&Ty::Str), ParamEffect::ReadBorrow);
    assert_eq!(initial_effect(&i32_ty()), ParamEffect::Owned);
    let all = [ParamEffect::ReadBorrow, ParamEffect::WriteBorrow, ParamEffect::Owned];
    for (i, a) in all.iter().enumerate() {
        for (k, b) in all.iter().enumerate() {
            assert_eq!(join_effect(*a, *b), all[i.max(k)]);
        }
    }
}

#[test]
fn sites_keep_their_loans() {
    let mut loans = SiteLoans::new();
    let mut next = 7;
    let first = loan_for_site(PassSite::Argument(1, 0), &mut loans, &mut next, span());
    assert_eq!(first.expect("a loan"), LoanId(7));
    let second = loan_for_site(PassSite::Receiver(1), &mut loans, &mut next, span());
    assert_eq!(second.expect("a loan"), LoanId(8));
    let again = loan_for_site(PassSite::Argument(1, 0), &mut loans, &mut next, span());
    assert_eq!(again.expect("a loan"), LoanId(7));
    assert_eq!(next, 9);
    let mut last = u32::MAX;
    let text = message(loan_for_site(PassSite::Receiver(2), &mut loans, &mut last, span()));
    assert_eq!(text, "call loan generation 数量超过编译器上限");
    assert_eq!(last, u32::MAX);
    assert_eq!(loans.get(PassSite::Receiver(2)), None);
}

#[test]
fn states_join() {
    let mut left = OwnershipState::new();
    let mut right = OwnershipState::new();
    right.moved.insert(BindingId(3));
    assert!(left.join(&right));
    assert!(!left.join(&right));
    assert!(left.moved.contains(BindingId(3)));
    left.initialize(BindingId(3));
    assert!(!left.moved.contains(BindingId(3)));
    assert!(dynamic_owner(&Ty::Str));
    assert!(!dynamic_owner(&i32_ty()));
}

#[test]
fn programs_need_a_main() {
    let missing = validate_main(&mut None).expect_err("refused");
    assert_eq!(missing.msg, "找不到顶层 func main");
    assert_eq!(missing.span, Span::default());
    // The entry is taken out, whether it is good or not.
    for ty in [func_ty(vec![], i32_ty()), Ty::Bool] {
        let mut main = Some((BindingId(2), ty, span()));
        let _ = validate_main(&mut main);
        assert!(main.is_none());
        assert_eq!(message(validate_main(&mut main)), "找不到顶层 func main");
    }
    let with = |ty: Ty| validate_main(&mut Some((BindingId(2), ty, span())));
    assert_eq!(with(func_ty(vec![], i32_ty())).expect("main"), BindingId(2));
    assert_eq!(message(with(func_ty(vec![i32_ty()], i32_ty()))), "顶层 func main 不能声明参数");
    assert_eq!(
        message(with(func_ty(vec![], Ty::Str))),
        "顶层 func main 返回类型必须是 i32, 实际 string"
    );
    assert_eq!(message(with(Ty::Bool)), "顶层 func main 返回类型必须是 i32, 实际 bool");
}

fn context() -> Context {
    Context {
        structs: Structs { defs: vec![], types: StructTable::new() },
        methods: vec![],
        fn_ret: None,
        borrowed: IdSet::new(),
        slots: Table::new(),
        functions: Table::new(),
        blocks: Table::new(),
        places: Table::new(),
        writable: Table::new(),
        builtins: Table::new(),
    }
}

fn notes() -> Notes {
    Notes {
        exprs: Table::new(),
        expr_binding_ids: Table::new(),
        field_indices: Table::new(),
        ctor_arg_indices: Table::new(),
        match_binding_ids: Table::new(),
        params: Table::new(),
        param_ids: Table::new(),
        move_places: Table::new(),
        borrow_places: Table::new(),
        owning_reads: Table::new(),
        pointer_views: Table::new(),
        next_binding: 0,
        next_loan: 0,
    }
}

fn no_declarations() -> DeclNotes {
    DeclNotes {
        fields: Table::new(),
        receivers: Table::new(),
        method_ids: Table::new(),
        method_self_ids: Table::new(),
        bindings: Table::new(),
        next_method: 0,
    }
}

#[test]
fn structs_are_declared_once() {
    let mut cx = context();
    cx.slots.insert(1, Answer { result: Ok(i32_ty()) });
    let field = |id: u32, name: &str| ast::StructField {
        id,
        name: name.to_string(),
        ty: ast::TypeSlot { id: 1 },
        mutable: true,
        default: None,
        span: span(),
    };
    let def = |name: &str, fields: Vec<ast::StructField>| ast::StructDef {
        name: name.to_string(),
        fields,
        span: span(),
    };
    let mut decls = no_declarations();
    let env = Scope::new();
    let mut notes = notes();
    let point = def("point", vec![field(10, "x"), field(11, "y")]);
    struct_def(&mut cx, &point, &env, &mut decls, &mut notes).expect("declared");
    assert_eq!(cx.structs.get(&"point".to_string()).expect("known").len(), 2);
    assert_eq!(decls.fields.get(11).expect("noted").name(), "i32");
    let again = def("point", vec![]);
    let text = message(struct_def(&mut cx, &again, &env, &mut decls, &mut notes));
    assert_eq!(text, "'point' 已定义为结构体, 不能重复定义");
    let twice = def("pair", vec![field(12, "x"), field(13, "x")]);
    let text = message(struct_def(&mut cx, &twice, &env, &mut decls, &mut notes));
    assert_eq!(text, "结构体 pair 重复定义字段 'x'");
}

#[test]
fn methods_are_known_from_their_signature_on() {
    let mut cx = context();
    cx.slots.insert(1, Answer { result: Ok(Ty::Struct("point".to_string())) });
    cx.slots.insert(2, Answer { result: Ok(i32_ty()) });
    let bump = || {
        let body = Box::new(ast::Body::Block(vec![]));
        ast::Binding {
            id: 20,
            kind: BindKind::Func,
            name: "bump".to_string(),
            ty: ast::TypeSlot { id: 2 },
            receiver: Some(ast::TypeSlot { id: 1 }),
            value: ast::Expr {
                id: 21,
                span: span(),
                kind: ast::ExprKind::FuncLit { params: vec![], body },
            },
            span: span(),
        }
    };
    let mut decls = no_declarations();
    let mut notes = notes();
    // The body is wrong: the method stays known, and its number is used up.
    let wrong = AliasError { msg: "wrong body".to_string(), span: span() };
    cx.functions.insert(21, Answer { result: Err(wrong) });
    let text = message(method_def(&mut cx, &bump(), &mut decls, &mut notes));
    assert_eq!(text, "wrong body");
    assert_eq!(cx.methods.len(), 1);
    assert_eq!((cx.methods[0].receiver.as_str(), cx.methods[0].name.as_str()), ("point", "bump"));
    assert_eq!(decls.next_method, 1);
    assert_eq!(decls.method_ids.get(20), Some(&MethodId(0)));
    assert!(decls.bindings.get(20).is_none());
    let text = message(method_def(&mut cx, &bump(), &mut decls, &mut notes));
    assert_eq!(text, "类型 point 上已定义方法 'bump'");
    assert_eq!(decls.next_method, 1);
    // With a body that is right everything is noted.
    cx.methods.clear();
    let full = func_ty(vec![Ty::Struct("point".to_string())], i32_ty());
    let found = FunctionAnswer { ty: full, ids: vec![BindingId(30)] };
    cx.functions.insert(21, Answer { result: Ok(found) });
    method_def(&mut cx, &bump(), &mut decls, &mut notes).expect("declared");
    assert_eq!(decls.method_ids.get(20), Some(&MethodId(1)));
    assert_eq!(decls.method_self_ids.get(20), Some(&BindingId(30)));
    assert!(decls.bindings.get(20).is_some());
    assert!(notes.exprs.get(21).is_some());
}

#[test]
fn faults_turn_into_diagnostics() {
    let plain = AliasError { msg: "plain".to_string(), span: span() };
    assert_eq!(ExprCheckError::from(plain).into_alias().msg, "plain");
    let fault = ExprCheckError::Mismatch { expected: i32_ty(), actual: Ty::Str, span: span() };
    let error = fault.into_alias();
    assert!(error.msg.contains("i32") && error.msg.contains("string"), "{}", error.msg);
    assert_eq!(error.span, span());
    let fault = ExprCheckError::LiteralOutOfRange {
        literal: "300".to_string(),
        expected: u8_ty(),
        span: span(),
    };
    let error = fault.into_alias();
    assert!(error.msg.contains("300") && error.msg.contains("u8"), "{}", error.msg);
}

fn no_facts() -> LowerFacts {
    LowerFacts {
        exprs: Table::new(),
        bindings: Table::new(),
        binding_ids: Table::new(),
        receivers: Table::new(),
        method_ids: Table::new(),
        method_self_ids: Table::new(),
        fields: Table::new(),
        field_indices: Table::new(),
        assignment_places: Table::new(),
        move_places: Table::new(),
        borrow_places: Table::new(),
        owning_reads: Table::new(),
        ctor_arg_indices: Table::new(),
        params: Table::new(),
        param_ids: Table::new(),
        fors: Table::new(),
        for_plans: Table::new(),
        for_ids: Table::new(),
        match_binding_ids: Table::new(),
        expr_binding_ids: Table::new(),
        next_function: 0,
    }
}

fn typed(ty: Ty) -> LowerExprInfo {
    LowerExprInfo { ty, call_target: None, implicit_zero_callee: None }
}

#[test]
fn facts_are_taken_once() {
    let mut table: Table<Ty> = Table::new();
    table.insert(4, Ty::Bool);
    assert_eq!(take_required(&mut table, 4, span(), "绑定类型").expect("there").name(), "bool");
    let text = message(take_required(&mut table, 4, span(), "绑定类型"));
    assert_eq!(text, "内部 sema 不变式被破坏: 绑定类型缺失");
}

#[test]
fn facts_must_not_be_left_over() {
    ensure_facts_consumed(&no_facts()).expect("nothing left");
    let mut facts = no_facts();
    facts.exprs.insert(1, typed(Ty::Bool));
    facts.exprs.insert(2, typed(Ty::Bool));
    let text = message(ensure_facts_consumed(&facts));
    assert!(text.contains("存在 2 条未消费的表达式 fact"), "{}", text);
}

/// func i32 main = () -> return 41 + 1
fn small() -> (ast::Program, LowerFacts) {
    let number = |id: u32, value: u64| {
        Box::new(ast::Expr { id, span: span(), kind: ast::ExprKind::Int(value) })
    };
    let total = ast::Expr {
        id: 3,
        span: span(),
        kind: ast::ExprKind::Binary { op: BinOp::Add, lhs: number(1, 41), rhs: number(2, 1) },
    };
    let give = ast::Stmt {
        id: 4,
        span: span(),
        kind: ast::StmtKind::Return { value: Some(total) },
    };
    let value = ast::Expr {
        id: 5,
        span: span(),
        kind: ast::ExprKind::FuncLit {
            params: vec![],
            body: Box::new(ast::Body::Single(Box::new(give))),
        },
    };
    let main = ast::Binding {
        id: 6,
        kind: BindKind::Func,
        name: "main".to_string(),
        ty: ast::TypeSlot { id: 7 },
        receiver: None,
        value,
        span: span(),
    };
    let mut facts = no_facts();
    for id in 1..4 {
        facts.exprs.insert(id, typed(i32_ty()));
    }
    facts.exprs.insert(5, typed(func_ty(vec![], i32_ty())));
    facts.bindings.insert(6, func_ty(vec![], i32_ty()));
    facts.binding_ids.insert(6, BindingId(9));
    (ast::Program { items: vec![ast::Item::Binding(Box::new(main))] }, facts)
}

/// The functions of the programs below take no parameters.
fn no_effects(_function: &Expr, _kinds: &KindTable) -> BodyEffects {
    Ok(vec![])
}

/// They take nothing from their surroundings either.
fn no_kinds(_function: &Expr, _known: &KindTable) -> FunctionKinds {
    Ok(vec![])
}

fn lower_all(program: &ast::Program, facts: LowerFacts) -> AliasResult<CheckedProgram> {
    let mut next_loan = 10;
    lower(program, facts, BindingId(9), &mut next_loan, no_kinds, no_effects)
}

#[test]
fn programs_are_lowered_with_their_facts() {
    let (program, facts) = small();
    let lowered = lower_all(&program, facts).expect("lowered");
    assert_eq!(lowered.main_id, BindingId(9));
    assert_eq!(lowered.items.len(), 1);
    let Item::Binding(main) = &lowered.items[0] else { panic!("a binding") };
    assert_eq!((main.binding_id, main.name.as_str()), (BindingId(9), "main"));
    assert_eq!(main.relation, Some(StorageRelation::Owning));
    assert_eq!(
        main.value.category(),
        Some(ExprCategory::Value(ValueCategory::OwnedTemporary))
    );
    let Expr::FuncLit { function_id, captures, body, .. } = &main.value else {
        panic!("a function")
    };
    assert_eq!(*function_id, FunctionId(0));
    assert!(captures.is_empty());
    let Body::Single(stmt) = body.as_ref() else { panic!("one statement") };
    let Stmt::Return { value: Some(Expr::Binary { op, lhs, rhs, .. }) } = stmt.as_ref() else {
        panic!("a sum")
    };
    assert_eq!(*op, BinOp::Add);
    assert!(matches!(lhs.as_ref(), Expr::Int(41, _, _)));
    assert!(matches!(rhs.as_ref(), Expr::Int(1, _, _)));
    assert_eq!(rhs.ty().name(), "i32");
    assert_eq!(rhs.category(), Some(ExprCategory::Value(ValueCategory::InlineValue)));
    assert_eq!(rhs.ownership_capability(), Some(OwnershipCapability::Absent));
    validate_resolved_hir(&lowered, no_kinds, no_effects).expect("accepted");
}

#[test]
fn lowering_needs_every_fact_and_no_other() {
    let (program, mut facts) = small();
    facts.exprs.take(2);
    let text = message(lower_all(&program, facts));
    assert!(text.contains("表达式缺少静态类型"), "{}", text);
    let (program, mut facts) = small();
    facts.fors.insert(77, i32_ty());
    let text = message(lower_all(&program, facts));
    assert!(text.contains("存在 1 条未消费的for 循环变量类型 fact"), "{}", text);
    let (program, mut facts) = small();
    facts.borrow_places.insert(77, borrow_of_owner());
    let text = message(lower_all(&program, facts));
    assert!(text.contains("存在 1 条未消费的borrow Place fact"), "{}", text);
}

#[test]
fn lowering_ends_in_the_gate() {
    let nothing = ast::Program { items: vec![] };
    let text = message(lower_all(&nothing, no_facts()));
    assert!(text.contains("main BindingId 不存在"), "{}", text);
    // The sum is said to be a text.
    let (program, mut facts) = small();
    facts.exprs.insert(3, typed(Ty::Str));
    assert!(lower_all(&program, facts).is_err());
}

fn borrow_of_owner() -> LowerBorrowInfo {
    LowerBorrowInfo {
        loan_id: LoanId(4),
        place: LowerPlaceInfo::Local { binding_id: BindingId(1), ty: Ty::Str },
        source_writable: false,
    }
}

struct Writer {
    facts: LowerFacts,
    next: u32,
}

impl Writer {
    fn node(&mut self, kind: ast::ExprKind, info: LowerExprInfo) -> ast::Expr {
        self.next += 1;
        self.facts.exprs.insert(self.next, info);
        ast::Expr { id: self.next, span: span(), kind }
    }

    fn name(&mut self, text: &str, id: Option<u32>, ty: Ty) -> ast::Expr {
        let e = self.node(ast::ExprKind::Ident(text.to_string()), typed(ty));
        if let Some(id) = id {
            self.facts.expr_binding_ids.insert(e.id, BindingId(id));
        }
        e
    }

    /// A call of a name that is no variable.
    fn call(&mut self, text: &str, target: LowerCallTarget, value: ast::Expr, ty: Ty) -> ast::Expr {
        let callee = Box::new(self.name(text, None, Ty::Unit));
        self.next += 1;
        let args = vec![ast::CallArg { id: self.next, label: None, value, span: span() }];
        self.node(
            ast::ExprKind::Call { callee, args },
            LowerExprInfo { ty, call_target: Some(target), implicit_zero_callee: None },
        )
    }

    fn val(&mut self, name: &str, id: u32, ty: Ty, value: ast::Expr) -> ast::Stmt {
        self.next += 1;
        self.facts.bindings.insert(self.next, ty);
        self.facts.binding_ids.insert(self.next, BindingId(id));
        let binding = ast::Binding {
            id: self.next,
            kind: BindKind::Val,
            name: name.to_string(),
            ty: ast::TypeSlot { id: 0 },
            receiver: None,
            value,
            span: span(),
        };
        self.stmt(ast::StmtKind::Binding(Box::new(binding)))
    }

    fn stmt(&mut self, kind: ast::StmtKind) -> ast::Stmt {
        self.next += 1;
        ast::Stmt { id: self.next, span: span(), kind }
    }

    /// `func i32 main = () -> { .. }`
    fn main(mut self, stmts: Vec<ast::Stmt>) -> (ast::Program, LowerFacts) {
        let value = self.node(
            ast::ExprKind::FuncLit { params: vec![], body: Box::new(ast::Body::Block(stmts)) },
            typed(func_ty(vec![], i32_ty())),
        );
        self.next += 1;
        self.facts.bindings.insert(self.next, func_ty(vec![], i32_ty()));
        self.facts.binding_ids.insert(self.next, BindingId(9));
        let main = ast::Binding {
            id: self.next,
            kind: BindKind::Func,
            name: "main".to_string(),
            ty: ast::TypeSlot { id: 0 },
            receiver: None,
            value,
            span: span(),
        };
        (ast::Program { items: vec![ast::Item::Binding(Box::new(main))] }, self.facts)
    }
}

/// val string owner = 'x'; val string alias = <target> owner; return alias.len()
fn second_owner(target: LowerCallTarget) -> (ast::Program, LowerFacts) {
    let mut w = Writer { facts: no_facts(), next: 0 };
    let lit = ast::StrPart::Lit("x".to_string());
    let x = w.node(ast::ExprKind::Str(vec![lit]), typed(Ty::Str));
    let first = w.val("owner", 1, Ty::Str, x);
    let owner = w.name("owner", Some(1), Ty::Str);
    let borrows = matches!(target, LowerCallTarget::Borrow);
    let taken = w.call(if borrows { "borrow" } else { "move" }, target, owner, Ty::Str);
    if borrows {
        w.facts.borrow_places.insert(taken.id, borrow_of_owner());
    } else {
        w.facts.move_places.insert(taken.id, borrow_of_owner().place);
    }
    let second = w.val("alias", 2, Ty::Str, taken);
    let alias = w.name("alias", Some(2), Ty::Str);
    let length = w.node(
        ast::ExprKind::MethodCall { recv: Box::new(alias), name: "len".to_string(), args: vec![] },
        LowerExprInfo {
            ty: i32_ty(),
            call_target: Some(LowerCallTarget::Method(MethodTarget::StringLen)),
            implicit_zero_callee: None,
        },
    );
    let last = w.stmt(ast::StmtKind::Return { value: Some(length) });
    w.main(vec![first, second, last])
}

fn second_binding(lowered: &CheckedProgram) -> &Binding {
    let Item::Binding(main) = &lowered.items[0] else { panic!("a binding") };
    let Expr::FuncLit { body, .. } = &main.value else { panic!("a function") };
    let Body::Block(stmts) = body.as_ref() else { panic!("a block") };
    let Stmt::Binding(alias) = &stmts[1] else { panic!("a binding") };
    alias
}

#[test]
fn borrows_are_lowered_to_a_node_of_their_own() {
    let (program, facts) = second_owner(LowerCallTarget::Borrow);
    let lowered = lower_all(&program, facts).expect("lowered");
    let alias = second_binding(&lowered);
    assert_eq!(alias.relation, Some(StorageRelation::Borrowed));
    assert_eq!(alias.operation, Some(BindingOperation::BindBorrowedAlias));
    assert_eq!(alias.value.category(), Some(ExprCategory::Value(ValueCategory::BorrowedValue)));
    assert_eq!(alias.value.ownership_capability(), Some(OwnershipCapability::Absent));
    let Expr::Borrow { loan_id, source, kind, .. } = &alias.value else { panic!("a borrow") };
    assert_eq!(*loan_id, LoanId(4));
    assert_eq!(*kind, Some(BorrowKind::Read));
    assert!(matches!(source.as_ref(), Place::Local { binding_id: BindingId(1), .. }));
}

#[test]
fn moves_are_lowered_to_a_node_of_their_own() {
    let (program, facts) = second_owner(LowerCallTarget::Move);
    let lowered = lower_all(&program, facts).expect("lowered");
    let moved = second_binding(&lowered);
    assert_eq!(moved.relation, Some(StorageRelation::Owning));
    assert_eq!(
        moved.value.category(),
        Some(ExprCategory::Value(ValueCategory::OwnedTemporary))
    );
    assert!(matches!(moved.value, Expr::Move { .. }));
}

#[test]
fn call_targets_use_up_only_what_they_need() {
    let mut facts = no_facts();
    facts.ctor_arg_indices.insert(1, 0);
    facts.fors.insert(2, i32_ty());
    let args = vec![ast::CallArg {
        id: 1,
        label: None,
        value: ast::Expr { id: 3, span: span(), kind: ast::ExprKind::Int(1) },
        span: span(),
    }];
    for target in [LowerCallTarget::Typeof, LowerCallTarget::Method(MethodTarget::StringLen)] {
        assert!(lower_call_target(target, &args, &mut facts, span()).is_err());
        assert_eq!((facts.ctor_arg_indices.len(), facts.fors.len()), (1, 1));
    }
    let target = LowerCallTarget::StructConstructor("cell".to_string());
    match lower_call_target(target, &args, &mut facts, span()).expect("a constructor") {
        CallTarget::StructConstructor { name, arg_field_indices } => {
            assert_eq!(name, "cell");
            assert_eq!(arg_field_indices, [0]);
        }
        _ => panic!("a constructor"),
    }
    assert_eq!((facts.ctor_arg_indices.len(), facts.fors.len()), (0, 1));
}

/// return [10, 20][at]
fn picked(at: u64) -> (ast::Program, LowerFacts) {
    let mut w = Writer { facts: no_facts(), next: 0 };
    let elems = vec![
        w.node(ast::ExprKind::Int(10), typed(i32_ty())),
        w.node(ast::ExprKind::Int(20), typed(i32_ty())),
    ];
    let whole = w.node(ast::ExprKind::ArrayLit { elems }, typed(Ty::Array(Box::new(i32_ty()))));
    let at = w.node(ast::ExprKind::Int(at), typed(i32_ty()));
    let value = w.node(
        ast::ExprKind::Index { recv: Box::new(whole), idx: Box::new(at) },
        typed(i32_ty()),
    );
    let last = w.stmt(ast::StmtKind::Return { value: Some(value) });
    w.main(vec![last])
}

#[test]
fn lowering_settles_indices_that_are_written_out() {
    let (program, facts) = picked(1);
    let lowered = lower_all(&program, facts).expect("lowered");
    let Item::Binding(main) = &lowered.items[0] else { panic!("a binding") };
    let Expr::FuncLit { body, .. } = &main.value else { panic!("a function") };
    let Body::Block(stmts) = body.as_ref() else { panic!("a block") };
    let Stmt::Return { value: Some(Expr::Index { bounds_check, .. }) } = &stmts[0] else {
        panic!("an index")
    };
    assert_eq!(*bounds_check, RuntimeCheckRequirement::Proven);
    let (program, facts) = picked(2);
    assert_eq!(message(lower_all(&program, facts)), "数组字面量的常量下标越界");
}
