//! Types, identities and diagnostics shared by every pass.

use vstd::prelude::*;

verus! {

/// A source range; the default span stands for "no position".
#[derive(Debug, Clone, Copy, PartialEq, Eq, Structural)]
pub struct Span {
    pub start: usize,
    pub end: usize,
}

impl Default for Span {
    fn default() -> (r: Span)
        ensures
            r == no_span(),
    {
        Span { start: 0, end: 0 }
    }
}

/// The span of a diagnostic that belongs to no source range.
pub open spec fn no_span() -> Span {
    Span { start: 0, end: 0 }
}

/// A diagnostic: what is wrong and where.
#[derive(Debug)]
pub struct AliasError {
    pub msg: String,
    pub span: Span,
}

/// What a diagnostic says, as plain values.
pub struct ErrorView {
    pub msg: Seq<char>,
    pub span: Span,
}

impl View for AliasError {
    type V = ErrorView;

    open spec fn view(&self) -> ErrorView {
        ErrorView { msg: self.msg@, span: self.span }
    }
}

pub type AliasResult<T> = Result<T, AliasError>;

/// The text that opens every diagnostic about a broken internal fact.
pub open spec fn broken(detail: Seq<char>) -> Seq<char> {
    "内部 sema 不变式被破坏: "@ + detail
}

/// The diagnostic for a broken internal fact.
pub open spec fn broken_at(span: Span, detail: Seq<char>) -> ErrorView {
    ErrorView { msg: broken(detail), span }
}

/// Builds the diagnostic for a broken internal fact.
pub fn broken_invariant(span: Span, msg: &str) -> (r: AliasError)
    ensures
        r@ == broken_at(span, msg@),
{
    let mut text: String = String::from_str("内部 sema 不变式被破坏: ");
    text.append(msg);
    AliasError { msg: text, span }
}

/// Builds a diagnostic with the given text.
pub fn error(span: Span, msg: &str) -> (r: AliasError)
    ensures
        r@ == (ErrorView { msg: msg@, span }),
{
    AliasError { msg: String::from_str(msg), span }
}

/// The diagnostic with a given text.
pub open spec fn told(span: Span, msg: Seq<char>) -> ErrorView {
    ErrorView { msg, span }
}

/// Copies a diagnostic.
pub fn copy_error(error: &AliasError) -> (r: AliasError)
    ensures
        r@ == error@,
{
    AliasError { msg: error.msg.clone(), span: error.span }
}

/// A name between two texts.
pub fn quoted(prefix: &str, name: &String, suffix: &str) -> (r: String)
    ensures
        r@ == prefix@ + name@ + suffix@,
{
    let mut text: String = String::from_str(prefix);
    text.append(name.as_str());
    text.append(suffix);
    text
}

/// The diagnostic that a result carries, if it carries one.
pub open spec fn fault_of<T>(result: AliasResult<T>) -> Option<ErrorView> {
    match result {
        Ok(_) => None,
        Err(error) => Some(error@),
    }
}

/// The first diagnostic of a list of checks, if one of them failed.
pub open spec fn first_fault(faults: Seq<Option<ErrorView>>) -> Option<ErrorView>
    decreases faults.len(),
{
    if faults.len() == 0 {
        None
    } else if faults[0] is Some {
        faults[0]
    } else {
        first_fault(faults.drop_first())
    }
}

/// The first failed check is the one before which all checks passed.
pub proof fn lemma_first_fault_at(faults: Seq<Option<ErrorView>>, i: int)
    requires
        0 <= i < faults.len(),
        faults[i] is Some,
        forall|k: int| 0 <= k < i ==> faults[k] is None,
    ensures
        first_fault(faults) == faults[i],
    decreases i,
{
    if i > 0 {
        let rest = faults.drop_first();
        assert(forall|k: int| 0 <= k < i - 1 ==> rest[k] == faults[k + 1]);
        lemma_first_fault_at(rest, i - 1);
    }
}

/// A list of checks has no first failure exactly when every check passed.
pub proof fn lemma_no_fault(faults: Seq<Option<ErrorView>>)
    ensures
        first_fault(faults) is None <==> forall|k: int|
            0 <= k < faults.len() ==> (#[trigger] faults[k]) is None,
    decreases faults.len(),
{
    if faults.len() > 0 {
        let rest = faults.drop_first();
        lemma_no_fault(rest);
        if faults[0] is None {
            if first_fault(rest) is None {
                assert forall|k: int| 0 <= k < faults.len() implies (#[trigger] faults[k]) is None by {
                    if k > 0 {
                        assert(rest[k - 1] == faults[k]);
                    }
                }
            }
            if forall|k: int| 0 <= k < faults.len() ==> (#[trigger] faults[k]) is None {
                assert forall|k: int| 0 <= k < rest.len() implies (#[trigger] rest[k]) is None by {
                    assert(rest[k] == faults[k + 1]);
                }
            }
        }
    }
}

#[derive(Debug, Clone, Copy, PartialEq, Eq, Structural, Hash)]
pub struct BindingId(pub u32);

#[derive(Debug, Clone, Copy, PartialEq, Eq, Structural, Hash)]
pub struct MethodId(pub u32);

#[derive(Debug, Clone, Copy, PartialEq, Eq, Structural, Hash)]
pub struct LoanId(pub u32);

#[derive(Debug, Clone, Copy, PartialEq, Eq, Structural, Hash)]
pub struct FunctionId(pub u32);

/// Width of an integer type.
#[derive(Debug, Clone, Copy, PartialEq, Eq, Structural)]
pub enum IntW {
    W8,
    W16,
    W32,
    W64,
}

/// Width of a floating-point type.
#[derive(Debug, Clone, Copy, PartialEq, Eq, Structural)]
pub enum FloatW {
    F32,
    F64,
}

/// What a function does with one parameter, from the weakest demand to the strongest.
#[derive(Debug, Clone, Copy, PartialEq, Eq, Structural)]
pub enum ParamEffect {
    ReadBorrow,
    WriteBorrow,
    Owned,
}

/// Where the storage behind a borrowed result lives.
#[derive(Debug, Clone, Copy, PartialEq, Eq, Structural)]
pub enum ReturnBorrowSource {
    SelfValue,
    Parameter(usize),
    Global(BindingId),
}

/// What a caller receives from a call.
#[derive(Debug, Clone, Copy, PartialEq, Eq, Structural)]
pub enum ReturnEffect {
    Inline,
    Owned,
    Borrowed(ReturnBorrowSource),
}

/// A static type. `Unknown` is a type that inference has not settled yet; `FuncPoly` is the
/// type of a slot that takes any function.
#[derive(Debug)]
pub enum Ty {
    Int(IntW),
    UInt(IntW),
    Float(FloatW),
    Bool,
    Str,
    Unit,
    Unknown,
    FuncPoly,
    Struct(String),
    Array(Box<Ty>),
    Iterator(Box<Ty>),
    Result(Box<Ty>, Box<Ty>),
    Ptr { pointee: Box<Ty>, nullable: bool },
    Func {
        params: Vec<Ty>,
        param_effects: Option<Vec<ParamEffect>>,
        ret: Box<Ty>,
        return_effect: Option<ReturnEffect>,
    },
}

/// The mathematical value of a `Ty`.
pub enum TyView {
    Int(IntW),
    UInt(IntW),
    Float(FloatW),
    Bool,
    Str,
    Unit,
    Unknown,
    FuncPoly,
    Struct(Seq<char>),
    Array(Box<TyView>),
    Iterator(Box<TyView>),
    Result(Box<TyView>, Box<TyView>),
    Ptr { pointee: Box<TyView>, nullable: bool },
    Func {
        params: Seq<TyView>,
        param_effects: Option<Seq<ParamEffect>>,
        ret: Box<TyView>,
        return_effect: Option<ReturnEffect>,
    },
}

pub open spec fn effects_view(effects: Option<Vec<ParamEffect>>) -> Option<Seq<ParamEffect>> {
    match effects {
        Some(list) => Some(list@),
        None => None,
    }
}

/// The mathematical value of a type.
pub open spec fn ty_view(ty: Ty) -> TyView
    decreases ty,
{
    match ty {
        Ty::Int(w) => TyView::Int(w),
        Ty::UInt(w) => TyView::UInt(w),
        Ty::Float(w) => TyView::Float(w),
        Ty::Bool => TyView::Bool,
        Ty::Str => TyView::Str,
        Ty::Unit => TyView::Unit,
        Ty::Unknown => TyView::Unknown,
        Ty::FuncPoly => TyView::FuncPoly,
        Ty::Struct(name) => TyView::Struct(name@),
        Ty::Array(elem) => TyView::Array(Box::new(ty_view(*elem))),
        Ty::Iterator(elem) => TyView::Iterator(Box::new(ty_view(*elem))),
        Ty::Result(ok, err) => TyView::Result(Box::new(ty_view(*ok)), Box::new(ty_view(*err))),
        Ty::Ptr { pointee, nullable } => TyView::Ptr {
            pointee: Box::new(ty_view(*pointee)),
            nullable,
        },
        Ty::Func { params, param_effects, ret, return_effect } => TyView::Func {
            params: Seq::new(
                params@.len(),
                |i: int|
                    if 0 <= i < params@.len() {
                        ty_view(params@[i])
                    } else {
                        TyView::Unknown
                    },
            ),
            param_effects: effects_view(param_effects),
            ret: Box::new(ty_view(*ret)),
            return_effect,
        },
    }
}

impl View for Ty {
    type V = TyView;

    open spec fn view(&self) -> TyView {
        ty_view(*self)
    }
}

/// The types of a list, in order.
pub open spec fn ty_views(list: Seq<Ty>) -> Seq<TyView> {
    list.map_values(|ty: Ty| ty@)
}

impl TyView {
    pub open spec fn is_numeric(self) -> bool {
        self is Int || self is UInt || self is Float
    }

    pub open spec fn is_integer(self) -> bool {
        self is Int || self is UInt
    }

    /// A plain scalar: copying it copies the whole value.
    pub open spec fn is_inline(self) -> bool {
        self.is_numeric() || self is Bool
    }

    /// Some part of the type is not settled.
    pub open spec fn contains_unknown(self) -> bool
        decreases self,
    {
        match self {
            TyView::Unknown => true,
            TyView::Array(elem) => elem.contains_unknown(),
            TyView::Iterator(elem) => elem.contains_unknown(),
            TyView::Result(ok, err) => ok.contains_unknown() || err.contains_unknown(),
            TyView::Ptr { pointee, .. } => pointee.contains_unknown(),
            TyView::Func { params, ret, .. } => {
                ||| exists|i: int| 0 <= i < params.len() && (#[trigger] params[i]).contains_unknown()
                ||| ret.contains_unknown()
            },
            _ => false,
        }
    }
}

/// Two types that a value may pass between. An unsettled type fits everything, the open
/// function type fits every function, and what a function does with its parameters and its
/// result plays no part.
pub open spec fn fits(a: TyView, b: TyView) -> bool
    decreases a,
{
    match (a, b) {
        (TyView::Unknown, _) => true,
        (_, TyView::Unknown) => true,
        (TyView::FuncPoly, _) => b is FuncPoly || b is Func,
        (_, TyView::FuncPoly) => a is Func,
        (TyView::Array(x), TyView::Array(y)) => fits(*x, *y),
        (TyView::Iterator(x), TyView::Iterator(y)) => fits(*x, *y),
        (TyView::Result(x, e), TyView::Result(y, f)) => fits(*x, *y) && fits(*e, *f),
        (
            TyView::Ptr { pointee: x, nullable: m },
            TyView::Ptr { pointee: y, nullable: n },
        ) => m == n && fits(*x, *y),
        (
            TyView::Func { params: p, ret: r, .. },
            TyView::Func { params: q, ret: s, .. },
        ) => {
            &&& p.len() == q.len()
            &&& forall|i: int| 0 <= i < p.len() ==> fits(#[trigger] p[i], q[i])
            &&& fits(*r, *s)
        },
        _ => a == b,
    }
}

pub open spec fn int_name(w: IntW) -> Seq<char> {
    match w {
        IntW::W8 => "i8"@,
        IntW::W16 => "i16"@,
        IntW::W32 => "i32"@,
        IntW::W64 => "i64"@,
    }
}

pub open spec fn uint_name(w: IntW) -> Seq<char> {
    match w {
        IntW::W8 => "u8"@,
        IntW::W16 => "u16"@,
        IntW::W32 => "u32"@,
        IntW::W64 => "u64"@,
    }
}

/// The name of a type as the language spells it.
pub open spec fn ty_name(ty: TyView) -> Seq<char>
    decreases ty,
{
    match ty {
        TyView::Int(w) => int_name(w),
        TyView::UInt(w) => uint_name(w),
        TyView::Float(FloatW::F32) => "f32"@,
        TyView::Float(FloatW::F64) => "f64"@,
        TyView::Bool => "bool"@,
        TyView::Str => "string"@,
        TyView::Unit => "unit"@,
        TyView::Unknown => "unknown"@,
        TyView::FuncPoly => "func"@,
        TyView::Func { .. } => "func"@,
        TyView::Struct(name) => name,
        TyView::Array(elem) => "array<"@ + ty_name(*elem) + ">"@,
        TyView::Iterator(elem) => "iterator<"@ + ty_name(*elem) + ">"@,
        TyView::Result(ok, err) => "result<"@ + ty_name(*ok) + ", "@ + ty_name(*err) + ">"@,
        TyView::Ptr { pointee, .. } => "ptr<"@ + ty_name(*pointee) + ">"@,
    }
}

impl Ty {
    pub fn is_unknown(&self) -> (r: bool)
        ensures
            r == (self@ is Unknown),
    {
        matches!(self, Ty::Unknown)
    }

    pub fn is_numeric(&self) -> (r: bool)
        ensures
            r == self@.is_numeric(),
    {
        matches!(self, Ty::Int(_) | Ty::UInt(_) | Ty::Float(_))
    }

    /// Whether some part of the type is not settled.
    pub fn contains_unknown(&self) -> (r: bool)
        ensures
            r == self@.contains_unknown(),
        decreases self,
    {
        match self {
            Ty::Unknown => true,
            Ty::Array(elem) => elem.contains_unknown(),
            Ty::Iterator(elem) => elem.contains_unknown(),
            Ty::Result(ok, err) => ok.contains_unknown() || err.contains_unknown(),
            Ty::Ptr { pointee, .. } => pointee.contains_unknown(),
            Ty::Func { params, ret, .. } => {
                let mut i: usize = 0;
                while i < params.len()
                    invariant
                        i <= params.len(),
                        self matches Ty::Func { params: p, .. } && p == params,
                        forall|k: int| 0 <= k < i ==> !(#[trigger] params@[k])@.contains_unknown(),
                    decreases params.len() - i,
                {
                    if params[i].contains_unknown() {
                        assert(self@->params[i as int].contains_unknown());
                        return true;
                    }
                    i += 1;
                }
                assert(forall|k: int|
                    0 <= k < self@->params.len() ==> self@->params[k] == params@[k]@);
                ret.contains_unknown()
            },
            _ => false,
        }
    }

    /// The name of the type as the language spells it.
    pub fn name(&self) -> (r: String)
        ensures
            r@ == ty_name(self@),
        decreases self,
    {
        match self {
            Ty::Int(w) => String::from_str(
                match w {
                    IntW::W8 => "i8",
                    IntW::W16 => "i16",
                    IntW::W32 => "i32",
                    IntW::W64 => "i64",
                },
            ),
            Ty::UInt(w) => String::from_str(
                match w {
                    IntW::W8 => "u8",
                    IntW::W16 => "u16",
                    IntW::W32 => "u32",
                    IntW::W64 => "u64",
                },
            ),
            Ty::Float(w) => String::from_str(
                match w {
                    FloatW::F32 => "f32",
                    FloatW::F64 => "f64",
                },
            ),
            Ty::Bool => String::from_str("bool"),
            Ty::Str => String::from_str("string"),
            Ty::Unit => String::from_str("unit"),
            Ty::Unknown => String::from_str("unknown"),
            Ty::FuncPoly => String::from_str("func"),
            Ty::Func { .. } => String::from_str("func"),
            Ty::Struct(name) => name.clone(),
            Ty::Array(elem) => {
                let mut text: String = String::from_str("array<");
                text.append(elem.name().as_str());
                text.append(">");
                text
            },
            Ty::Iterator(elem) => {
                let mut text: String = String::from_str("iterator<");
                text.append(elem.name().as_str());
                text.append(">");
                text
            },
            Ty::Result(ok, err) => {
                let mut text: String = String::from_str("result<");
                text.append(ok.name().as_str());
                text.append(", ");
                text.append(err.name().as_str());
                text.append(">");
                text
            },
            Ty::Ptr { pointee, .. } => {
                let mut text: String = String::from_str("ptr<");
                text.append(pointee.name().as_str());
                text.append(">");
                text
            },
        }
    }
}

/// A copy of a list of parameter effects.
pub fn copy_effects(effects: &Option<Vec<ParamEffect>>) -> (r: Option<Vec<ParamEffect>>)
    ensures
        effects_view(r) == effects_view(*effects),
{
    match effects {
        None => None,
        Some(list) => {
            let mut out: Vec<ParamEffect> = Vec::new();
            let mut i: usize = 0;
            while i < list.len()
                invariant
                    i <= list.len(),
                    out@ == list@.subrange(0, i as int),
                decreases list.len() - i,
            {
                out.push(list[i]);
                i += 1;
            }
            Some(out)
        },
    }
}

/// Whether two recorded lists of parameter effects are the same.
pub fn effects_eq(a: &Option<Vec<ParamEffect>>, b: &Option<Vec<ParamEffect>>) -> (r: bool)
    ensures
        r == (effects_view(*a) == effects_view(*b)),
{
    match (a, b) {
        (None, None) => true,
        (Some(x), Some(y)) => {
            if x.len() != y.len() {
                return false;
            }
            let mut i: usize = 0;
            while i < x.len()
                invariant
                    i <= x.len(),
                    x.len() == y.len(),
                    effects_view(*a) == Some(x@),
                    effects_view(*b) == Some(y@),
                    forall|k: int| 0 <= k < i ==> x@[k] == y@[k],
                decreases x.len() - i,
            {
                if x[i] != y[i] {
                    assert(x@[i as int] != y@[i as int]);
                    return false;
                }
                i += 1;
            }
            assert(x@ =~= y@);
            true
        },
        _ => false,
    }
}

impl Clone for Ty {
    fn clone(&self) -> (r: Ty)
        ensures
            r@ == self@,
        decreases self,
    {
        match self {
            Ty::Int(w) => Ty::Int(*w),
            Ty::UInt(w) => Ty::UInt(*w),
            Ty::Float(w) => Ty::Float(*w),
            Ty::Bool => Ty::Bool,
            Ty::Str => Ty::Str,
            Ty::Unit => Ty::Unit,
            Ty::Unknown => Ty::Unknown,
            Ty::FuncPoly => Ty::FuncPoly,
            Ty::Struct(name) => Ty::Struct(name.clone()),
            Ty::Array(elem) => Ty::Array(Box::new((&**elem).clone())),
            Ty::Iterator(elem) => Ty::Iterator(Box::new((&**elem).clone())),
            Ty::Result(ok, err) => Ty::Result(
                Box::new((&**ok).clone()),
                Box::new((&**err).clone()),
            ),
            Ty::Ptr { pointee, nullable } => Ty::Ptr {
                pointee: Box::new((&**pointee).clone()),
                nullable: *nullable,
            },
            Ty::Func { params, param_effects, ret, return_effect } => {
                let mut copied: Vec<Ty> = Vec::new();
                let mut i: usize = 0;
                while i < params.len()
                    invariant
                        i <= params.len(),
                        self matches Ty::Func { params: p, .. } && p == params,
                        copied.len() == i,
                        forall|k: int| 0 <= k < i ==> (#[trigger] copied@[k])@ == params@[k]@,
                    decreases params.len() - i,
                {
                    copied.push(params[i].clone());
                    i += 1;
                }
                let r = Ty::Func {
                    params: copied,
                    param_effects: copy_effects(param_effects),
                    ret: Box::new((&**ret).clone()),
                    return_effect: *return_effect,
                };
                assert(r@->params =~= self@->params);
                r
            },
        }
    }
}

impl Ty {
    /// Whether two types are the same, recorded effects included.
    pub fn same(&self, other: &Ty) -> (r: bool)
        ensures
            r == (self@ == other@),
        decreases self,
    {
        match (self, other) {
            (Ty::Int(a), Ty::Int(b)) => *a == *b,
            (Ty::UInt(a), Ty::UInt(b)) => *a == *b,
            (Ty::Float(a), Ty::Float(b)) => *a == *b,
            (Ty::Bool, Ty::Bool) => true,
            (Ty::Str, Ty::Str) => true,
            (Ty::Unit, Ty::Unit) => true,
            (Ty::Unknown, Ty::Unknown) => true,
            (Ty::FuncPoly, Ty::FuncPoly) => true,
            (Ty::Struct(a), Ty::Struct(b)) => *a == *b,
            (Ty::Array(a), Ty::Array(b)) => a.same(b),
            (Ty::Iterator(a), Ty::Iterator(b)) => a.same(b),
            (Ty::Result(a, e), Ty::Result(b, f)) => a.same(b) && e.same(f),
            (
                Ty::Ptr { pointee: a, nullable: m },
                Ty::Ptr { pointee: b, nullable: n },
            ) => *m == *n && a.same(b),
            (
                Ty::Func { params: p, param_effects: pe, ret: r, return_effect: re },
                Ty::Func { params: q, param_effects: qe, ret: s, return_effect: se },
            ) => {
                if p.len() != q.len() {
                    assert(self@->params.len() != other@->params.len());
                    return false;
                }
                let mut i: usize = 0;
                while i < p.len()
                    invariant
                        i <= p.len(),
                        p.len() == q.len(),
                        self matches Ty::Func { params: sp, .. } && sp == p,
                        other matches Ty::Func { params: oq, .. } && oq == q,
                        forall|k: int| 0 <= k < i ==> (#[trigger] p@[k])@ == q@[k]@,
                    decreases p.len() - i,
                {
                    if !p[i].same(&q[i]) {
                        assert(self@->params[i as int] != other@->params[i as int]);
                        return false;
                    }
                    i += 1;
                }
                assert(self@->params =~= other@->params);
                let same_result = match (re, se) {
                    (None, None) => true,
                    (Some(x), Some(y)) => *x == *y,
                    _ => false,
                };
                same_result && effects_eq(pe, qe) && r.same(s)
            },
            _ => false,
        }
    }
}

/// Whether a value may pass between slots of these two types.
pub fn types_match(a: &Ty, b: &Ty) -> (r: bool)
    ensures
        r == fits(a@, b@),
    decreases a,
{
    match (a, b) {
        (Ty::Unknown, _) => true,
        (_, Ty::Unknown) => true,
        (Ty::FuncPoly, _) => matches!(b, Ty::FuncPoly | Ty::Func { .. }),
        (_, Ty::FuncPoly) => matches!(a, Ty::Func { .. }),
        (Ty::Array(x), Ty::Array(y)) => types_match(x, y),
        (Ty::Iterator(x), Ty::Iterator(y)) => types_match(x, y),
        (Ty::Result(x, e), Ty::Result(y, f)) => types_match(x, y) && types_match(e, f),
        (
            Ty::Ptr { pointee: x, nullable: m },
            Ty::Ptr { pointee: y, nullable: n },
        ) => *m == *n && types_match(x, y),
        (Ty::Func { params: p, ret: r, .. }, Ty::Func { params: q, ret: s, .. }) => {
            if p.len() != q.len() {
                return false;
            }
            let mut i: usize = 0;
            while i < p.len()
                invariant
                    i <= p.len(),
                    p.len() == q.len(),
                    a matches Ty::Func { params: sp, .. } && sp == p,
                    b matches Ty::Func { params: oq, .. } && oq == q,
                    forall|k: int| 0 <= k < i ==> fits((#[trigger] a@->params[k]), b@->params[k]),
                decreases p.len() - i,
            {
                if !types_match(&p[i], &q[i]) {
                    assert(!fits(a@->params[i as int], b@->params[i as int]));
                    return false;
                }
                i += 1;
            }
            types_match(r, s)
        },
        _ => a.same(b),
    }
}

pub open spec fn digit_text(digit: nat) -> Seq<char> {
    if digit == 0 {
        "0"@
    } else if digit == 1 {
        "1"@
    } else if digit == 2 {
        "2"@
    } else if digit == 3 {
        "3"@
    } else if digit == 4 {
        "4"@
    } else if digit == 5 {
        "5"@
    } else if digit == 6 {
        "6"@
    } else if digit == 7 {
        "7"@
    } else if digit == 8 {
        "8"@
    } else {
        "9"@
    }
}

/// A number in decimal notation.
pub open spec fn decimal(n: nat) -> Seq<char>
    decreases n,
{
    if n < 10 {
        digit_text(n)
    } else {
        decimal(n / 10) + digit_text(n % 10)
    }
}

/// Writes a number in decimal notation.
pub fn number_text(n: u64) -> (r: String)
    ensures
        r@ == decimal(n as nat),
    decreases n,
{
    let digit: u64 = n % 10;
    let last = if digit == 0 {
        "0"
    } else if digit == 1 {
        "1"
    } else if digit == 2 {
        "2"
    } else if digit == 3 {
        "3"
    } else if digit == 4 {
        "4"
    } else if digit == 5 {
        "5"
    } else if digit == 6 {
        "6"
    } else if digit == 7 {
        "7"
    } else if digit == 8 {
        "8"
    } else {
        "9"
    };
    if n < 10 {
        String::from_str(last)
    } else {
        let mut text: String = number_text(n / 10);
        text.append(last);
        text
    }
}

/// A variable as diagnostics name it.
pub open spec fn binding_text(id: BindingId) -> Seq<char> {
    "BindingId("@ + decimal(id.0 as nat) + ")"@
}

/// Text with the name of a variable in it.
pub fn with_binding(prefix: &str, id: BindingId, suffix: &str) -> (r: String)
    ensures
        r@ == prefix@ + binding_text(id) + suffix@,
{
    let mut text: String = String::from_str(prefix);
    text.append("BindingId(");
    text.append(number_text(id.0 as u64).as_str());
    text.append(")");
    text.append(suffix);
    assert(text@ =~= prefix@ + binding_text(id) + suffix@);
    text
}

} // verus!
