//! Which patterns a match may have.

use crate::diagnostics::{error2, error3, error4, error5, signed_decimal, signed_text};
use crate::literals::{int_literal_fits, literal_fits};
use crate::model::{CtorKind, Pattern};
use crate::types::{
    AliasResult, ErrorView, Span, Ty, TyView, error, fault_of, fits, told, ty_name, types_match,
};
use vstd::prelude::*;

verus! {

/// What the patterns so far cover.
pub struct CoverView {
    pub ok: bool,
    pub err: bool,
    pub yes: bool,
    pub no: bool,
    pub ints: Seq<i128>,
    pub texts: Seq<Seq<char>>,
    /// Nothing is left for another pattern.
    pub all: bool,
}

pub struct Cover {
    pub ok: bool,
    pub err: bool,
    pub yes: bool,
    pub no: bool,
    pub ints: Vec<i128>,
    pub texts: Vec<String>,
    pub all: bool,
}

pub open spec fn text_views(list: Seq<String>) -> Seq<Seq<char>> {
    Seq::new(list.len(), |i: int| list[i]@)
}

impl View for Cover {
    type V = CoverView;

    open spec fn view(&self) -> CoverView {
        CoverView {
            ok: self.ok,
            err: self.err,
            yes: self.yes,
            no: self.no,
            ints: self.ints@,
            texts: text_views(self.texts@),
            all: self.all,
        }
    }
}

pub open spec fn no_cover() -> CoverView {
    CoverView {
        ok: false,
        err: false,
        yes: false,
        no: false,
        ints: Seq::empty(),
        texts: Seq::empty(),
        all: false,
    }
}

impl Cover {
    pub fn new() -> (r: Cover)
        ensures
            r@ == no_cover(),
    {
        let r = Cover {
            ok: false,
            err: false,
            yes: false,
            no: false,
            ints: Vec::new(),
            texts: Vec::new(),
            all: false,
        };
        assert(r@.texts =~= Seq::empty());
        assert(r@.ints =~= Seq::empty());
        r
    }
}

pub open spec fn absolute(value: int) -> nat {
    if value < 0 {
        (-value) as nat
    } else {
        value as nat
    }
}

/// The variable that a pattern binds, and what is covered by itself.
pub open spec fn pattern_cover(st: TyView, pattern: Pattern, cover: CoverView) -> Result<
    (Option<(Seq<char>, TyView)>, CoverView),
    ErrorView,
> {
    match pattern {
        Pattern::Wildcard { .. } => Ok((None, cover)),
        Pattern::Binding { name, .. } => Ok((Some((name@, st)), cover)),
        Pattern::Int { value, span } => if !st.is_integer() {
            Err(told(span, "整数字面量 Pattern 不适用于 "@ + ty_name(st)))
        } else if !literal_fits(st, absolute(value as int), value < 0) {
            Err(
                told(
                    span,
                    "字面量 "@ + signed_decimal(value as int) + " 超出 "@ + ty_name(st)
                        + " 的表示范围"@,
                ),
            )
        } else if cover.ints.contains(value) {
            Err(told(span, "match 重复 Pattern: "@ + signed_decimal(value as int)))
        } else {
            Ok((None, CoverView { ints: cover.ints.push(value), ..cover }))
        },
        Pattern::Bool { value, span } => if !(st is Bool) {
            Err(told(span, "bool Pattern 不适用于 "@ + ty_name(st)))
        } else if value {
            if cover.yes {
                Err(told(span, "match 重复 Pattern: true"@))
            } else {
                Ok((None, CoverView { yes: true, ..cover }))
            }
        } else if cover.no {
            Err(told(span, "match 重复 Pattern: false"@))
        } else {
            Ok((None, CoverView { no: true, ..cover }))
        },
        Pattern::Str { value, span } => if !(st is Str) {
            Err(told(span, "字符串 Pattern 不适用于 "@ + ty_name(st)))
        } else if cover.texts.contains(value@) {
            Err(told(span, "match 重复 Pattern: '"@ + value@ + "'"@))
        } else {
            Ok((None, CoverView { texts: cover.texts.push(value@), ..cover }))
        },
        Pattern::Constructor { ctor, binding, span } => match st {
            TyView::Result(ok_ty, err_ty) => match ctor {
                CtorKind::OkCtor => if cover.ok {
                    Err(told(span, "match 重复覆盖 ok 臂"@))
                } else {
                    Ok(
                        (
                            match binding {
                                Some(name) => Some((name@, *ok_ty)),
                                None => None,
                            },
                            CoverView { ok: true, ..cover },
                        ),
                    )
                },
                CtorKind::ErrCtor => if cover.err {
                    Err(told(span, "match 重复覆盖 err 臂"@))
                } else {
                    Ok(
                        (
                            match binding {
                                Some(name) => Some((name@, *err_ty)),
                                None => None,
                            },
                            CoverView { err: true, ..cover },
                        ),
                    )
                },
            },
            _ => Err(told(span, "构造器 Pattern 需要 result 主语, 实际 "@ + ty_name(st))),
        },
    }
}

/// Nothing is left after a pattern.
pub open spec fn covers_all(st: TyView, pattern: Pattern, cover: CoverView) -> bool {
    pattern is Wildcard || pattern is Binding || (st is Result && cover.ok && cover.err) || (
    st is Bool && cover.yes && cover.no)
}

/// The variable that one more pattern binds, and what is covered with it.
pub open spec fn pattern_step(st: TyView, pattern: Pattern, cover: CoverView) -> Result<
    (Option<(Seq<char>, TyView)>, CoverView),
    ErrorView,
> {
    if cover.all {
        Err(told(pattern.spec_span(), "match 存在不可达 Pattern"@))
    } else {
        match pattern_cover(st, pattern, cover) {
            Err(error) => Err(error),
            Ok((bound, after)) => Ok(
                (bound, CoverView { all: covers_all(st, pattern, after), ..after }),
            ),
        }
    }
}

pub open spec fn bound_view(bound: Option<(String, Ty)>) -> Option<(Seq<char>, TyView)> {
    match bound {
        Some((name, ty)) => Some((name@, ty@)),
        None => None,
    }
}

fn pattern_fits(st: &Ty, value: i128) -> (r: bool)
    ensures
        r == literal_fits(st@, absolute(value as int), value < 0),
{
    if value > 0xffff_ffff_ffff_ffff || value < -0xffff_ffff_ffff_ffff {
        return false;
    }
    if value < 0 {
        int_literal_fits(st, (-value) as u64, true)
    } else {
        int_literal_fits(st, value as u64, false)
    }
}

fn has_int(list: &Vec<i128>, value: i128) -> (r: bool)
    ensures
        r == list@.contains(value),
{
    let mut i: usize = 0;
    while i < list.len()
        invariant
            i <= list.len(),
            forall|k: int| 0 <= k < i ==> list@[k] != value,
        decreases list.len() - i,
    {
        if list[i] == value {
            assert(list@[i as int] == value);
            return true;
        }
        i += 1;
    }
    false
}

fn has_text(list: &Vec<String>, value: &String) -> (r: bool)
    ensures
        r == text_views(list@).contains(value@),
{
    let mut i: usize = 0;
    while i < list.len()
        invariant
            i <= list.len(),
            forall|k: int| 0 <= k < i ==> list@[k]@ != value@,
        decreases list.len() - i,
    {
        if list[i] == *value {
            assert(text_views(list@)[i as int] == value@);
            return true;
        }
        i += 1;
    }
    assert(!text_views(list@).contains(value@)) by {
        if text_views(list@).contains(value@) {
            let k = choose|k: int|
                0 <= k < text_views(list@).len() && text_views(list@)[k] == value@;
            assert(list@[k]@ == value@);
        }
    }
    false
}

fn cover_int(st: &Ty, value: i128, span: Span, cover: &mut Cover) -> (r: AliasResult<()>)
    ensures
        match pattern_cover(st@, Pattern::Int { value, span }, old(cover)@) {
            Ok((_, after)) => r is Ok && final(cover)@ == after,
            Err(error) => fault_of(r) == Some(error),
        },
{
    if !matches!(st, Ty::Int(_) | Ty::UInt(_)) {
        return Err(error2(span, "整数字面量 Pattern 不适用于 ", st.name().as_str()));
    }
    if !pattern_fits(st, value) {
        return Err(
            error5(
                span,
                "字面量 ",
                signed_text(value).as_str(),
                " 超出 ",
                st.name().as_str(),
                " 的表示范围",
            ),
        );
    }
    if has_int(&cover.ints, value) {
        return Err(error2(span, "match 重复 Pattern: ", signed_text(value).as_str()));
    }
    cover.ints.push(value);
    Ok(())
}

fn cover_plain(st: &Ty, pattern: &Pattern, cover: &mut Cover) -> (r: AliasResult<
    Option<(String, Ty)>,
>)
    requires
        !(*pattern is Constructor),
    ensures
        match pattern_cover(st@, *pattern, old(cover)@) {
            Ok((bound, after)) => r matches Ok(found) && bound_view(found) == bound && final(cover)@
                == after,
            Err(error) => fault_of(r) == Some(error),
        },
{
    match pattern {
        Pattern::Wildcard { .. } => Ok(None),
        Pattern::Binding { name, .. } => Ok(Some((name.clone(), st.clone()))),
        Pattern::Int { value, span } => match cover_int(st, *value, *span, cover) {
            Ok(()) => Ok(None),
            Err(error) => Err(error),
        },
        Pattern::Bool { value, span } => {
            if !matches!(st, Ty::Bool) {
                return Err(error2(*span, "bool Pattern 不适用于 ", st.name().as_str()));
            }
            if *value {
                if cover.yes {
                    return Err(error(*span, "match 重复 Pattern: true"));
                }
                cover.yes = true;
            } else {
                if cover.no {
                    return Err(error(*span, "match 重复 Pattern: false"));
                }
                cover.no = true;
            }
            Ok(None)
        },
        Pattern::Str { value, span } => {
            if !matches!(st, Ty::Str) {
                return Err(error2(*span, "字符串 Pattern 不适用于 ", st.name().as_str()));
            }
            if has_text(&cover.texts, value) {
                return Err(error3(*span, "match 重复 Pattern: '", value.as_str(), "'"));
            }
            let ghost before = cover.texts@;
            cover.texts.push(value.clone());
            assert(text_views(cover.texts@) =~= text_views(before).push(value@));
            Ok(None)
        },
        Pattern::Constructor { .. } => Ok(None),
    }
}

fn cover_constructor(st: &Ty, pattern: &Pattern, cover: &mut Cover) -> (r: AliasResult<
    Option<(String, Ty)>,
>)
    requires
        *pattern is Constructor,
    ensures
        match pattern_cover(st@, *pattern, old(cover)@) {
            Ok((bound, after)) => r matches Ok(found) && bound_view(found) == bound && final(cover)@
                == after,
            Err(error) => fault_of(r) == Some(error),
        },
{
    if let Pattern::Constructor { ctor, binding, span } = pattern {
        match st {
            Ty::Result(ok_ty, err_ty) => {
                let ty = match ctor {
                    CtorKind::OkCtor => {
                        if cover.ok {
                            return Err(error(*span, "match 重复覆盖 ok 臂"));
                        }
                        cover.ok = true;
                        ok_ty
                    },
                    CtorKind::ErrCtor => {
                        if cover.err {
                            return Err(error(*span, "match 重复覆盖 err 臂"));
                        }
                        cover.err = true;
                        err_ty
                    },
                };
                return Ok(
                    match binding {
                        Some(name) => Some((name.clone(), (**ty).clone())),
                        None => None,
                    },
                );
            },
            _ => {
                return Err(
                    error2(
                        *span,
                        "构造器 Pattern 需要 result 主语, 实际 ",
                        st.name().as_str(),
                    ),
                );
            },
        }
    }
    Ok(None)
}

/// Checks one more pattern of a match, and finds the variable that it binds.
pub fn check_pattern(st: &Ty, pattern: &Pattern, cover: &mut Cover) -> (r: AliasResult<
    Option<(String, Ty)>,
>)
    ensures
        match pattern_step(st@, *pattern, old(cover)@) {
            Ok((bound, after)) => r matches Ok(found) && bound_view(found) == bound && final(cover)@
                == after,
            Err(error) => fault_of(r) == Some(error),
        },
{
    if cover.all {
        return Err(error(pattern.span(), "match 存在不可达 Pattern"));
    }
    let result = match pattern {
        Pattern::Constructor { .. } => cover_constructor(st, pattern, cover),
        _ => cover_plain(st, pattern, cover),
    };
    match result {
        Err(error) => Err(error),
        Ok(bound) => {
            let open = matches!(pattern, Pattern::Wildcard { .. } | Pattern::Binding { .. });
            cover.all = open || (matches!(st, Ty::Result(_, _)) && cover.ok && cover.err) || (
            matches!(st, Ty::Bool) && cover.yes && cover.no);
            Ok(bound)
        },
    }
}

/// What is wrong with a match whose patterns leave something open.
pub open spec fn open_fault(st: TyView, cover: CoverView, span: Span) -> Option<ErrorView> {
    if cover.all {
        None
    } else {
        Some(
            told(
                span,
                match st {
                    TyView::Result(_, _) =>
                        "match 必须同时覆盖 ok 与 err，或提供兜底 Pattern"@,
                    TyView::Bool => "match bool 必须覆盖 true 与 false，或提供兜底 Pattern"@,
                    _ => "match "@ + ty_name(st) + " 必须提供 _ 或绑定 Pattern 作为兜底"@,
                },
            ),
        )
    }
}

pub fn check_covered(st: &Ty, cover: &Cover, span: Span) -> (r: AliasResult<()>)
    ensures
        fault_of(r) == open_fault(st@, cover@, span),
{
    if cover.all {
        return Ok(());
    }
    Err(
        match st {
            Ty::Result(_, _) => error(
                span,
                "match 必须同时覆盖 ok 与 err，或提供兜底 Pattern",
            ),
            Ty::Bool => error(
                span,
                "match bool 必须覆盖 true 与 false，或提供兜底 Pattern",
            ),
            _ => error3(
                span,
                "match ",
                st.name().as_str(),
                " 必须提供 _ 或绑定 Pattern 作为兜底",
            ),
        },
    )
}

/// The type that the arms so far have in common.
pub open spec fn joined_arm(common: Option<TyView>, ty: TyView, span: Span) -> Result<
    TyView,
    ErrorView,
> {
    match common {
        None => Ok(ty),
        Some(known) => if known is Unknown {
            Ok(ty)
        } else if ty is Unknown || fits(known, ty) {
            Ok(known)
        } else {
            Err(
                told(span, "match 各臂类型不一致: "@ + ty_name(known) + " 与 "@ + ty_name(ty)),
            )
        },
    }
}

pub fn join_arm(common: Option<Ty>, ty: Ty, span: Span) -> (r: AliasResult<Ty>)
    ensures
        match joined_arm(
            match common {
                Some(known) => Some(known@),
                None => None,
            },
            ty@,
            span,
        ) {
            Ok(joined) => r matches Ok(found) && found@ == joined,
            Err(error) => fault_of(r) == Some(error),
        },
{
    match common {
        None => Ok(ty),
        Some(known) => {
            if known.is_unknown() {
                return Ok(ty);
            }
            if ty.is_unknown() || types_match(&known, &ty) {
                return Ok(known);
            }
            Err(
                error4(
                    span,
                    "match 各臂类型不一致: ",
                    known.name().as_str(),
                    " 与 ",
                    ty.name().as_str(),
                ),
            )
        },
    }
}

/// Once nothing is left, every further pattern is refused.
pub proof fn law_nothing_follows_a_full_cover(st: TyView, pattern: Pattern, cover: CoverView)
    requires
        cover.all,
    ensures
        pattern_step(st, pattern, cover) is Err,
{
}

/// A pattern that is accepted is not accepted a second time.
pub proof fn law_no_pattern_twice(st: TyView, pattern: Pattern, cover: CoverView)
    requires
        pattern_step(st, pattern, cover) is Ok,
    ensures
        pattern_step(st, pattern, pattern_step(st, pattern, cover)->Ok_0.1) is Err,
{
    match pattern {
        Pattern::Int { value, .. } => {
            let after = cover.ints.push(value);
            assert(after[after.len() - 1] == value);
        },
        Pattern::Str { value, .. } => {
            let after = cover.texts.push(value@);
            assert(after[after.len() - 1] == value@);
        },
        _ => {},
    }
}

} // verus!
