//! The types of expressions, and the expressions that are refused.

use alias_sema::ast::{CallArg, Expr, ExprKind, StrPart};
use alias_sema::checker_state::{
    Answer, Context, ExprCheckError, FieldInfo, MethodSig, Notes, Scope, Structs, UserMethod, VarInfo,
};
use alias_sema::facts::{LowerCallTarget, LowerPlaceInfo, Table};
use alias_sema::ids::IdSet;
use alias_sema::model::{BinOp, BuiltinCall, DeepClonePlan, MethodTarget, ShallowClonePlan};
use alias_sema::structs::StructTable;
use alias_sema::types::{AliasError, BindingId, IntW, MethodId, Span, Ty};
use alias_sema::typing::{check_expr, expr_expected};

/// The scope, the context and the notes of one check.
struct Bench {
    cx: Context,
    env: Scope,
    notes: Notes,
    next: u32,
}

fn span() -> Span {
    Span { start: 3, end: 9 }
}

fn i32_ty() -> Ty {
    Ty::Int(IntW::W32)
}

fn array(element: Ty) -> Ty {
    Ty::Array(Box::new(element))
}

fn iterator(element: Ty) -> Ty {
    Ty::Iterator(Box::new(element))
}

fn result(ok: Ty, err: Ty) -> Ty {
    Ty::Result(Box::new(ok), Box::new(err))
}

fn function(params: Vec<Ty>, ret: Ty) -> Ty {
    Ty::Func { params, param_effects: None, ret: Box::new(ret), return_effect: None }
}

fn struct_ty(name: &str) -> Ty {
    Ty::Struct(name.to_string())
}

impl Bench {
    fn new() -> Bench {
        Bench {
            cx: Context {
                structs: Structs { defs: vec![], types: StructTable::new() },
                methods: vec![],
                fn_ret: Some(i32_ty()),
                borrowed: IdSet::new(),
                slots: Table::new(),
                functions: Table::new(),
                blocks: Table::new(),
                places: Table::new(),
                writable: Table::new(),
                builtins: Table::new(),
            },
            env: Scope::new(),
            notes: Notes {
                exprs: Table::new(),
                expr_binding_ids: Table::new(),
                field_indices: Table::new(),
                ctor_arg_indices: Table::new(),
                match_binding_ids: Table::new(),
                params: Table::new(),
                param_ids: Table::new(),
                move_places: Table::new(),
                borrow_places: Table::new(),
                owning_reads: Table::new(),
                pointer_views: Table::new(),
                next_binding: 100,
                next_loan: 0,
            },
            next: 0,
        }
    }

    fn variable(&mut self, name: &str, id: u32, ty: Ty) {
        self.env.insert(name.to_string(), VarInfo { id: BindingId(id), ty, mutable: true });
    }

    fn declare(&mut self, name: &str, fields: Vec<(&str, Ty, bool)>, types: Vec<Ty>) {
        let infos = fields
            .into_iter()
            .map(|(name, ty, has_default)| FieldInfo {
                name: name.to_string(),
                mutable: true,
                ty,
                has_default,
            })
            .collect();
        self.cx.structs.defs.push((name.to_string(), infos));
        self.cx.structs.types.insert(name.to_string(), types);
    }

    fn node(&mut self, kind: ExprKind) -> Expr {
        self.next += 1;
        Expr { id: self.next, span: span(), kind }
    }

    fn integer(&mut self, value: u64) -> Expr {
        self.node(ExprKind::Int(value))
    }

    fn text(&mut self, text: &str) -> Expr {
        self.node(ExprKind::Str(vec![StrPart::Lit(text.to_string())]))
    }

    fn name(&mut self, name: &str) -> Expr {
        self.node(ExprKind::Ident(name.to_string()))
    }

    /// A name whose place is known to be the variable itself.
    fn place(&mut self, name: &str, id: u32, ty: fn() -> Ty) -> Expr {
        let e = self.name(name);
        let place = LowerPlaceInfo::Local { binding_id: BindingId(id), ty: ty() };
        self.cx.places.insert(e.id, Answer { result: Ok(place) });
        e
    }

    fn array_of(&mut self, elems: Vec<Expr>) -> Expr {
        self.node(ExprKind::ArrayLit { elems })
    }

    fn binary(&mut self, op: BinOp, lhs: Expr, rhs: Expr) -> Expr {
        self.node(ExprKind::Binary { op, lhs: Box::new(lhs), rhs: Box::new(rhs) })
    }

    fn labelled(&mut self, name: &str, args: Vec<(Option<&str>, Expr)>) -> Expr {
        let callee = self.name(name);
        let mut list = Vec::new();
        for (label, value) in args {
            self.next += 1;
            list.push(CallArg {
                id: self.next,
                label: label.map(|label| label.to_string()),
                value,
                span: span(),
            });
        }
        self.node(ExprKind::Call { callee: Box::new(callee), args: list })
    }

    fn call(&mut self, name: &str, args: Vec<Expr>) -> Expr {
        let args = args.into_iter().map(|value| (None, value)).collect();
        self.labelled(name, args)
    }

    fn check(&mut self, e: &Expr) -> Result<Ty, AliasError> {
        check_expr(&self.cx, e, &self.env, &mut self.notes)
    }

    fn expect(&mut self, e: &Expr, expected: &Ty) -> Result<Ty, ExprCheckError> {
        expr_expected(&self.cx, e, &self.env, expected, &mut self.notes)
    }

    fn target(&self, e: &Expr) -> &LowerCallTarget {
        self.notes.exprs.get(e.id).expect("noted").call_target.as_ref().expect("a call")
    }
}

fn refusal(result: Result<Ty, AliasError>) -> String {
    result.expect_err("refused").msg
}

fn refusal_of(result: Result<Ty, ExprCheckError>) -> String {
    result.expect_err("refused").into_alias().msg
}

#[test]
fn clone_rejects_non_deep_cloneable_function_and_iterator() {
    // func i32 f = () -> return 1; val func bad = clone(f)
    let mut bench = Bench::new();
    bench.variable("f", 1, function(vec![], i32_ty()));
    let f = bench.name("f");
    let bad = bench.call("clone", vec![f]);
    let message = refusal_of(bench.expect(&bad, &Ty::FuncPoly));
    assert!(message.contains("不支持 clone"), "{}", message);

    // val iterator<i32> it = a.iterator(); val iterator<i32> bad = clone(it)
    let mut bench = Bench::new();
    bench.variable("it", 1, iterator(i32_ty()));
    let it = bench.name("it");
    let bad = bench.call("clone", vec![it]);
    let message = refusal_of(bench.expect(&bad, &iterator(i32_ty())));
    assert!(message.contains("不支持 clone"), "{}", message);
}

#[test]
fn shallow_rejects_scalar_and_dynamic_ownership_children() {
    // val i32 bad = shallow(1)
    let mut bench = Bench::new();
    let one = bench.integer(1);
    let bad = bench.call("shallow", vec![one]);
    let message = refusal_of(bench.expect(&bad, &i32_ty()));
    assert!(message.contains("不提供 shallow"), "{}", message);

    // val string bad = shallow('x')
    let mut bench = Bench::new();
    let x = bench.text("x");
    let bad = bench.call("shallow", vec![x]);
    let message = refusal_of(bench.expect(&bad, &Ty::Str));
    assert!(message.contains("不支持 shallow"), "{}", message);

    // struct bad_box { val string name = 'x' }; val bad_box bad = shallow(original)
    let mut bench = Bench::new();
    bench.declare("bad_box", vec![("name", Ty::Str, true)], vec![Ty::Str]);
    bench.variable("original", 1, struct_ty("bad_box"));
    let original = bench.name("original");
    let bad = bench.call("shallow", vec![original]);
    let message = refusal_of(bench.expect(&bad, &struct_ty("bad_box")));
    assert!(message.contains("不支持 shallow"), "{}", message);

    // shallow(values)
    let mut bench = Bench::new();
    bench.variable("values", 1, array(i32_ty()));
    let values = bench.name("values");
    let bad = bench.call("shallow", vec![values]);
    let message = refusal(bench.check(&bad));
    assert!(message.contains("不支持 shallow"), "{}", message);

    // shallow(it)
    let mut bench = Bench::new();
    bench.variable("it", 1, iterator(i32_ty()));
    let it = bench.name("it");
    let bad = bench.call("shallow", vec![it]);
    let message = refusal(bench.check(&bad));
    assert!(message.contains("不支持 shallow"), "{}", message);

    // struct leaf { var i32 value = 1 }; func leaf make = () -> return leaf(); shallow(make)
    let mut bench = Bench::new();
    bench.declare("leaf", vec![("value", i32_ty(), true)], vec![i32_ty()]);
    bench.variable("make", 1, function(vec![], struct_ty("leaf")));
    let make = bench.name("make");
    let bad = bench.call("shallow", vec![make]);
    let message = refusal(bench.check(&bad));
    assert!(message.contains("不支持 shallow"), "{}", message);
}

#[test]
fn literals_take_the_type_of_their_slot() {
    let mut bench = Bench::new();
    let e = bench.integer(200);
    let found = bench.expect(&e, &Ty::UInt(IntW::W8)).expect("fits");
    assert_eq!(found.name(), "u8");
    let e = bench.integer(300);
    match bench.expect(&e, &Ty::UInt(IntW::W8)) {
        Err(ExprCheckError::LiteralOutOfRange { literal, expected, span: at }) => {
            assert_eq!(literal, "300");
            assert_eq!(expected.name(), "u8");
            assert_eq!(at, span());
        }
        _ => panic!("out of range"),
    }
    let e = bench.text("a");
    match bench.expect(&e, &i32_ty()) {
        Err(ExprCheckError::Mismatch { expected, actual, .. }) => {
            assert_eq!(expected.name(), "i32");
            assert_eq!(actual.name(), "string");
        }
        _ => panic!("mismatch"),
    }
}

#[test]
fn clone_settles_its_plan_from_the_slot() {
    // val array<i32> empty = clone([])
    let mut bench = Bench::new();
    let list = bench.array_of(vec![]);
    let e = bench.call("clone", vec![list]);
    let found = bench.expect(&e, &array(i32_ty())).expect("clones");
    assert_eq!(found.name(), "array<i32>");
    match bench.target(&e) {
        LowerCallTarget::Builtin(BuiltinCall::DeepClone(plan)) => {
            assert!(plan.same(&DeepClonePlan::Array(Box::new(DeepClonePlan::Inline))));
        }
        other => panic!("{:?}", other),
    }
}

#[test]
fn shallow_settles_its_plan() {
    let mut bench = Bench::new();
    bench.declare("leaf", vec![("value", i32_ty(), true)], vec![i32_ty()]);
    bench.variable("a", 1, struct_ty("leaf"));
    let a = bench.name("a");
    let e = bench.call("shallow", vec![a]);
    assert_eq!(bench.check(&e).expect("copies").name(), "leaf");
    match bench.target(&e) {
        LowerCallTarget::Builtin(BuiltinCall::ShallowClone(plan)) => {
            assert!(plan.same(&ShallowClonePlan::Struct {
                name: "leaf".to_string(),
                fields: vec![ShallowClonePlan::Inline],
            }));
        }
        other => panic!("{:?}", other),
    }
}

#[test]
fn arithmetic_needs_one_type_on_both_sides() {
    let mut bench = Bench::new();
    let (one, two) = (bench.integer(1), bench.integer(2));
    let e = bench.binary(BinOp::Add, one, two);
    assert_eq!(bench.check(&e).expect("adds").name(), "i32");
    let (one, two) = (bench.integer(1), bench.integer(2));
    let e = bench.binary(BinOp::Lt, one, two);
    assert_eq!(bench.check(&e).expect("compares").name(), "bool");
    let (one, text) = (bench.integer(1), bench.text("x"));
    let e = bench.binary(BinOp::Mul, one, text);
    assert!(bench.check(&e).is_err());
}

#[test]
fn unknown_names_are_refused() {
    let mut bench = Bench::new();
    let e = bench.name("nobody");
    let error = bench.check(&e).expect_err("unknown");
    assert!(error.msg.contains("nobody"), "{}", error.msg);
    assert_eq!(error.span, span());
}

#[test]
fn variables_note_what_they_name() {
    let mut bench = Bench::new();
    bench.variable("x", 5, Ty::Str);
    let e = bench.name("x");
    assert_eq!(bench.check(&e).expect("known").name(), "string");
    assert_eq!(bench.notes.expr_binding_ids.get(e.id), Some(&BindingId(5)));
    assert_eq!(bench.notes.type_of(e.id).name(), "string");
}

#[test]
fn constructors_take_labelled_fields_in_any_order() {
    let mut bench = Bench::new();
    bench.declare(
        "point",
        vec![("x", i32_ty(), false), ("y", i32_ty(), false)],
        vec![i32_ty(), i32_ty()],
    );
    let (one, two) = (bench.integer(1), bench.integer(2));
    let e = bench.labelled("point", vec![(Some("y"), two), (Some("x"), one)]);
    assert_eq!(bench.check(&e).expect("built").name(), "point");
    let ExprKind::Call { args, .. } = &e.kind else { panic!("a call") };
    assert_eq!(bench.notes.ctor_arg_indices.get(args[0].id), Some(&1));
    assert_eq!(bench.notes.ctor_arg_indices.get(args[1].id), Some(&0));
    assert!(
        matches!(bench.target(&e), LowerCallTarget::StructConstructor(name) if name == "point")
    );

    let one = bench.integer(1);
    let e = bench.labelled("point", vec![(Some("x"), one)]);
    let message = refusal(bench.check(&e));
    assert!(message.contains("y"), "{}", message);
    let one = bench.integer(1);
    let e = bench.labelled("point", vec![(Some("z"), one)]);
    let message = refusal(bench.check(&e));
    assert!(message.contains("z"), "{}", message);
}

#[test]
fn results_take_the_type_of_their_slot() {
    let mut bench = Bench::new();
    let x = bench.text("x");
    let e = bench.call("ok", vec![x]);
    let found = bench.expect(&e, &result(Ty::Str, i32_ty())).expect("built");
    assert!(found.same(&result(Ty::Str, i32_ty())));
}

#[test]
fn calls_check_their_arguments() {
    let mut bench = Bench::new();
    bench.variable("f", 1, function(vec![i32_ty(), Ty::Bool], Ty::Str));
    let one = bench.integer(1);
    let yes = bench.node(ExprKind::Bool(true));
    let e = bench.call("f", vec![one, yes]);
    assert_eq!(bench.check(&e).expect("called").name(), "string");
    assert!(matches!(bench.target(&e), LowerCallTarget::FunctionValue));
    let one = bench.integer(1);
    let e = bench.call("f", vec![one]);
    assert!(bench.check(&e).is_err());
    let (x, yes) = (bench.text("x"), bench.node(ExprKind::Bool(true)));
    let e = bench.call("f", vec![x, yes]);
    assert!(bench.check(&e).is_err());
}

#[test]
fn zero_argument_names_are_called_where_a_value_is_wanted() {
    let mut bench = Bench::new();
    bench.variable("f", 1, function(vec![], i32_ty()));
    let e = bench.name("f");
    assert_eq!(bench.check(&e).expect("called").name(), "i32");
    assert!(bench.notes.exprs.get(e.id).expect("noted").implicit_zero_callee.is_some());
}

#[test]
fn moves_and_borrows_note_their_places() {
    let mut bench = Bench::new();
    bench.variable("s", 4, Ty::Str);
    let s = bench.place("s", 4, || Ty::Str);
    let e = bench.call("move", vec![s]);
    assert_eq!(bench.check(&e).expect("moved").name(), "string");
    assert!(matches!(bench.target(&e), LowerCallTarget::Move));
    assert_eq!(bench.notes.move_places.get(e.id).expect("place").root_binding_id(), BindingId(4));

    let s = bench.place("s", 4, || Ty::Str);
    bench.cx.writable.insert(s.id, Answer { result: Ok(true) });
    let e = bench.call("borrow", vec![s]);
    assert_eq!(bench.check(&e).expect("borrowed").name(), "string");
    assert!(matches!(bench.target(&e), LowerCallTarget::Borrow));
    assert!(bench.notes.borrow_places.get(e.id).is_some());
    assert_eq!(bench.notes.next_loan, 1);
}

#[test]
fn user_methods_are_found_by_receiver_and_name() {
    let mut bench = Bench::new();
    bench.declare("leaf", vec![("value", i32_ty(), true)], vec![i32_ty()]);
    bench.cx.methods.push(UserMethod {
        receiver: "leaf".to_string(),
        name: "get".to_string(),
        id: MethodId(8),
        params: vec![],
        ret: Ty::Bool,
    });
    bench.variable("a", 1, struct_ty("leaf"));
    let a = bench.name("a");
    let e = bench.node(ExprKind::MethodCall {
        recv: Box::new(a),
        name: "get".to_string(),
        args: vec![],
    });
    assert_eq!(bench.check(&e).expect("called").name(), "bool");
    match bench.target(&e) {
        LowerCallTarget::Method(MethodTarget::User { id, .. }) => assert_eq!(*id, MethodId(8)),
        other => panic!("{:?}", other),
    }
    let a = bench.name("a");
    let e = bench.node(ExprKind::MethodCall {
        recv: Box::new(a),
        name: "put".to_string(),
        args: vec![],
    });
    assert!(bench.check(&e).is_err());
}

#[test]
fn builtin_methods_come_from_their_calls() {
    let mut bench = Bench::new();
    bench.variable("s", 1, Ty::Str);
    let s = bench.name("s");
    let e = bench.node(ExprKind::MethodCall {
        recv: Box::new(s),
        name: "len".to_string(),
        args: vec![],
    });
    bench.cx.builtins.insert(
        e.id,
        MethodSig { params: vec![], ret: i32_ty(), target: Some(MethodTarget::StringLen) },
    );
    assert_eq!(bench.check(&e).expect("called").name(), "i32");
    assert!(matches!(bench.target(&e), LowerCallTarget::Method(MethodTarget::StringLen)));
}
