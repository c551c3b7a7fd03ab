//! How callers hand arguments over.

use crate::expr_places::{
    from_expr, law_place_is_its_own_storage, lemma_place_root, place_of, same_source, same_storage,
    tree_root,
};
use crate::function_facts::{FactsView, ProgramFacts, is_alias};
use crate::model::{ArgumentPass, BorrowKind, Expr, OwnershipCapability, Place, ValueCategory};
use crate::tree::{Label, Tree, part, pass_tree, place_tree};
use crate::types::{
    AliasError, AliasResult, ErrorView, LoanId, ParamEffect, Span, broken_at, broken_invariant,
    error, fault_of, told,
};
use crate::value_categories::{owns_dynamically, type_carries_dynamic_owner};
use vstd::prelude::*;

verus! {

/// What a parameter effect asks of an argument, or why the argument cannot give it.
pub enum Demand {
    /// The argument is copied.
    Inline,
    /// The argument gives its value away.
    Owned,
    /// The argument lends its storage.
    Lend(BorrowKind, Place),
    /// The argument lends a value that has no other owner.
    Temporary(BorrowKind),
    /// The argument would have to give away a value that it does not own.
    NotOwned,
    /// The argument is an alias itself.
    Forwarded,
    /// The argument is a variable that is an alias.
    ForwardedAlias,
    /// The argument has no storage to lend.
    Unstable,
}

pub enum DemandView {
    Inline,
    Owned,
    Lend(BorrowKind, Tree),
    Temporary(BorrowKind),
    NotOwned,
    Forwarded,
    ForwardedAlias,
    Unstable,
}

impl View for Demand {
    type V = DemandView;

    open spec fn view(&self) -> DemandView {
        match *self {
            Demand::Inline => DemandView::Inline,
            Demand::Owned => DemandView::Owned,
            Demand::Lend(kind, place) => DemandView::Lend(kind, place_tree(place)),
            Demand::Temporary(kind) => DemandView::Temporary(kind),
            Demand::NotOwned => DemandView::NotOwned,
            Demand::Forwarded => DemandView::Forwarded,
            Demand::ForwardedAlias => DemandView::ForwardedAlias,
            Demand::Unstable => DemandView::Unstable,
        }
    }
}

pub open spec fn lent_kind(effect: ParamEffect) -> BorrowKind {
    if effect == ParamEffect::ReadBorrow {
        BorrowKind::Read
    } else {
        BorrowKind::Write
    }
}

/// The value owns what it holds, and nothing else does.
pub open spec fn gives_away(value: Expr) -> bool {
    value.spec_value_category() == Some(ValueCategory::OwnedTemporary)
        && value.spec_info().ownership_capability == Some(OwnershipCapability::Available)
}

/// What a parameter effect asks of an argument.
pub open spec fn demand_of<'a>(value: Expr, effect: ParamEffect, facts: FactsView<'a>) -> DemandView {
    if !owns_dynamically(value.tyv()) {
        DemandView::Inline
    } else if effect == ParamEffect::Owned {
        if gives_away(value) {
            DemandView::Owned
        } else {
            DemandView::NotOwned
        }
    } else if value.spec_value_category() == Some(ValueCategory::BorrowedValue) {
        DemandView::Forwarded
    } else {
        match place_of(value) {
            Some(place) => if is_alias(facts, tree_root(place)) {
                DemandView::ForwardedAlias
            } else {
                DemandView::Lend(lent_kind(effect), place)
            },
            None => if value.spec_value_category() == Some(ValueCategory::OwnedTemporary) {
                DemandView::Temporary(lent_kind(effect))
            } else {
                DemandView::Unstable
            },
        }
    }
}

pub fn demand<'a>(value: &Expr, effect: ParamEffect, facts: &ProgramFacts<'a>) -> (r: Demand)
    ensures
        r@ == demand_of(*value, effect, facts@),
{
    if !type_carries_dynamic_owner(value.ty()) {
        return Demand::Inline;
    }
    let kind = match effect {
        ParamEffect::Owned => {
            return if value.value_category() == Some(ValueCategory::OwnedTemporary)
                && value.ownership_capability() == Some(OwnershipCapability::Available) {
                Demand::Owned
            } else {
                Demand::NotOwned
            };
        },
        ParamEffect::ReadBorrow => BorrowKind::Read,
        ParamEffect::WriteBorrow => BorrowKind::Write,
    };
    if value.value_category() == Some(ValueCategory::BorrowedValue) {
        return Demand::Forwarded;
    }
    match from_expr(value) {
        Some(source) => {
            proof {
                lemma_place_root(source);
            }
            if facts.alias(source.root_binding_id()) {
                Demand::ForwardedAlias
            } else {
                Demand::Lend(kind, source)
            }
        },
        None => if value.value_category() == Some(ValueCategory::OwnedTemporary) {
            Demand::Temporary(kind)
        } else {
            Demand::Unstable
        },
    }
}

/// A pass lends the storage at a place.
pub open spec fn lends(pass: ArgumentPass, kind: BorrowKind) -> Option<Tree> {
    match (kind, pass) {
        (BorrowKind::Read, ArgumentPass::ReadBorrow { source, .. }) => Some(place_tree(source)),
        (BorrowKind::Write, ArgumentPass::WriteBorrow { source, .. }) => Some(place_tree(source)),
        _ => None,
    }
}

/// What is wrong with how an argument is recorded to be passed.
pub open spec fn pass_fault<'a>(
    value: Expr,
    effect: ParamEffect,
    pass: ArgumentPass,
    facts: FactsView<'a>,
) -> Option<ErrorView> {
    let span = value.spec_span();
    match demand_of(value, effect, facts) {
        DemandView::Inline => if pass is Inline {
            None
        } else {
            Some(broken_at(span, "inline argument 携带 dynamic parameter pass"@))
        },
        DemandView::Owned => if pass is Owned {
            None
        } else {
            Some(
                broken_at(span, "Owned parameter argument pass 与 ownership capability 漂移"@),
            )
        },
        DemandView::NotOwned => Some(
            broken_at(span, "Owned parameter argument pass 与 ownership capability 漂移"@),
        ),
        DemandView::Forwarded => Some(
            broken_at(span, "borrowed argument 绕过 referent-loan forwarding gate"@),
        ),
        DemandView::ForwardedAlias => Some(
            broken_at(span, "borrowed alias argument 绕过 referent-loan forwarding gate"@),
        ),
        DemandView::Lend(kind, place) => match lends(pass, kind) {
            None => Some(
                broken_at(span, "stable Place argument pass 与 parameter effect 漂移"@),
            ),
            Some(source) => if same_storage(source, place) {
                None
            } else {
                Some(broken_at(span, "argument pass source 与实参 Place 漂移"@))
            },
        },
        DemandView::Temporary(kind) => if pass == (ArgumentPass::BorrowTemporary { kind }) {
            None
        } else {
            Some(broken_at(span, "temporary argument pass 与 parameter effect 漂移"@))
        },
        DemandView::Unstable => Some(
            broken_at(span, "borrow parameter argument 缺少 stable Place 或 OwnedTemporary"@),
        ),
    }
}

/// Checks how an argument is recorded to be passed.
pub fn validate_argument_pass<'a>(
    value: &Expr,
    effect: ParamEffect,
    pass: &ArgumentPass,
    facts: &ProgramFacts<'a>,
) -> (r: AliasResult<()>)
    ensures
        fault_of(r) == pass_fault(*value, effect, *pass, facts@),
{
    let span = value.span();
    match demand(value, effect, facts) {
        Demand::Inline => match pass {
            ArgumentPass::Inline => Ok(()),
            _ => Err(broken_invariant(span, "inline argument 携带 dynamic parameter pass")),
        },
        Demand::Owned => match pass {
            ArgumentPass::Owned => Ok(()),
            _ => Err(
                broken_invariant(
                    span,
                    "Owned parameter argument pass 与 ownership capability 漂移",
                ),
            ),
        },
        Demand::NotOwned => Err(
            broken_invariant(span, "Owned parameter argument pass 与 ownership capability 漂移"),
        ),
        Demand::Forwarded => Err(
            broken_invariant(span, "borrowed argument 绕过 referent-loan forwarding gate"),
        ),
        Demand::ForwardedAlias => Err(
            broken_invariant(span, "borrowed alias argument 绕过 referent-loan forwarding gate"),
        ),
        Demand::Lend(kind, place) => {
            let source = match (kind, pass) {
                (BorrowKind::Read, ArgumentPass::ReadBorrow { source, .. }) => source,
                (BorrowKind::Write, ArgumentPass::WriteBorrow { source, .. }) => source,
                _ => {
                    return Err(
                        broken_invariant(
                            span,
                            "stable Place argument pass 与 parameter effect 漂移",
                        ),
                    );
                },
            };
            if same_source(source, &place) {
                Ok(())
            } else {
                Err(broken_invariant(span, "argument pass source 与实参 Place 漂移"))
            }
        },
        Demand::Temporary(kind) => match pass {
            ArgumentPass::BorrowTemporary { kind: found } if *found == kind => Ok(()),
            _ => Err(broken_invariant(span, "temporary argument pass 与 parameter effect 漂移")),
        },
        Demand::Unstable => Err(
            broken_invariant(span, "borrow parameter argument 缺少 stable Place 或 OwnedTemporary"),
        ),
    }
}

/// One argument or receiver of one call: the number of the call in the walk over the program,
/// and the argument.
#[derive(Debug, Clone, Copy, PartialEq, Eq, Structural)]
pub enum PassSite {
    Receiver(usize),
    Argument(usize, usize),
}

/// The loans of the arguments that lend storage.
pub struct SiteLoans {
    pub raw: Vec<(PassSite, LoanId)>,
}

impl View for SiteLoans {
    type V = Seq<(PassSite, LoanId)>;

    open spec fn view(&self) -> Seq<(PassSite, LoanId)> {
        self.raw@
    }
}

pub open spec fn loan_at(loans: Seq<(PassSite, LoanId)>, site: PassSite) -> Option<LoanId>
    decreases loans.len(),
{
    if loans.len() == 0 {
        None
    } else if loans.last().0 == site {
        Some(loans.last().1)
    } else {
        loan_at(loans.drop_last(), site)
    }
}

/// The loans that have been given out, and the number of the next one.
pub struct LoanBook {
    pub loans: Seq<(PassSite, LoanId)>,
    pub next: u32,
}

/// The loan of a site: the one that it has, or else a new one.
pub open spec fn site_loan(book: LoanBook, site: PassSite, span: Span) -> Result<
    (LoanId, LoanBook),
    ErrorView,
> {
    match loan_at(book.loans, site) {
        Some(id) => Ok((id, book)),
        None => if book.next == u32::MAX {
            Err(told(span, "call loan generation 数量超过编译器上限"@))
        } else {
            Ok(
                (
                    LoanId(book.next),
                    LoanBook {
                        loans: book.loans.push((site, LoanId(book.next))),
                        next: (book.next + 1) as u32,
                    },
                ),
            )
        },
    }
}

impl SiteLoans {
    pub fn new() -> (r: SiteLoans)
        ensures
            r@ == Seq::<(PassSite, LoanId)>::empty(),
    {
        SiteLoans { raw: Vec::new() }
    }

    pub fn get(&self, site: PassSite) -> (r: Option<LoanId>)
        ensures
            r == loan_at(self@, site),
    {
        let mut left: usize = self.raw.len();
        assert(self@.take(left as int) =~= self@);
        while left > 0
            invariant
                left <= self.raw.len(),
                loan_at(self@, site) == loan_at(self@.take(left as int), site),
            decreases left,
        {
            proof {
                assert(self@.take(left as int).drop_last() =~= self@.take(left - 1));
                assert(self@.take(left as int).last() == self@[left - 1]);
            }
            left -= 1;
            if self.raw[left].0 == site {
                return Some(self.raw[left].1);
            }
        }
        None
    }
}

/// Takes the loan of a site, and gives it one where it has none.
pub fn loan_for_site(
    site: PassSite,
    loans: &mut SiteLoans,
    next_loan_id: &mut u32,
    span: Span,
) -> (r: AliasResult<LoanId>)
    ensures
        match site_loan(LoanBook { loans: old(loans)@, next: *old(next_loan_id) }, site, span) {
            Ok((id, book)) => r == Ok::<LoanId, AliasError>(id) && final(loans)@ == book.loans
                && *final(next_loan_id) == book.next,
            Err(error) => fault_of(r) == Some(error) && final(loans)@ == old(loans)@
                && *final(next_loan_id) == *old(next_loan_id),
        },
{
    if let Some(id) = loans.get(site) {
        return Ok(id);
    }
    let id = LoanId(*next_loan_id);
    if *next_loan_id == u32::MAX {
        return Err(error(span, "call loan generation 数量超过编译器上限"));
    }
    *next_loan_id = *next_loan_id + 1;
    loans.raw.push((site, id));
    Ok(id)
}

/// How an argument is passed under a parameter effect, and the loans afterwards.
pub open spec fn planned_pass<'a>(
    value: Expr,
    effect: ParamEffect,
    facts: FactsView<'a>,
    site: PassSite,
    book: LoanBook,
) -> Result<(Tree, LoanBook), ErrorView> {
    let span = value.spec_span();
    match demand_of(value, effect, facts) {
        DemandView::Inline => Ok((part(Label::PassInline, Seq::empty()), book)),
        DemandView::Owned => Ok((part(Label::PassOwned, Seq::empty()), book)),
        DemandView::NotOwned => Err(
            told(span, "Owned parameter 的动态实参必须是显式 ownership-producing value"@),
        ),
        DemandView::Forwarded => Err(
            told(span, "borrowed argument 的 referent-loan forwarding 尚未固化"@),
        ),
        DemandView::ForwardedAlias => Err(
            told(span, "borrowed alias argument 的 referent-loan forwarding 尚未固化"@),
        ),
        DemandView::Lend(kind, place) => match site_loan(book, site, span) {
            Err(error) => Err(error),
            Ok((id, after)) => Ok(
                (
                    part(
                        match kind {
                            BorrowKind::Read => Label::PassRead(id),
                            BorrowKind::Write => Label::PassWrite(id),
                        },
                        seq![place],
                    ),
                    after,
                ),
            ),
        },
        DemandView::Temporary(kind) => Ok((part(Label::PassTemporary(kind), Seq::empty()), book)),
        DemandView::Unstable => Err(
            told(span, "borrow parameter 的动态实参必须是 stable Place 或 OwnedTemporary"@),
        ),
    }
}

/// Plans how an argument is passed under a parameter effect.
pub fn argument_pass<'a>(
    value: &Expr,
    effect: ParamEffect,
    facts: &ProgramFacts<'a>,
    site: PassSite,
    loans: &mut SiteLoans,
    next_loan_id: &mut u32,
) -> (r: AliasResult<ArgumentPass>)
    ensures
        match planned_pass(
            *value,
            effect,
            facts@,
            site,
            LoanBook { loans: old(loans)@, next: *old(next_loan_id) },
        ) {
            Ok((tree, book)) => r matches Ok(pass) && pass_tree(Some(pass)) == tree
                && final(loans)@ == book.loans && *final(next_loan_id) == book.next,
            Err(error) => fault_of(r) == Some(error),
        },
{
    let span = value.span();
    match demand(value, effect, facts) {
        Demand::Inline => Ok(ArgumentPass::Inline),
        Demand::Owned => Ok(ArgumentPass::Owned),
        Demand::NotOwned => Err(
            error(span, "Owned parameter 的动态实参必须是显式 ownership-producing value"),
        ),
        Demand::Forwarded => Err(
            error(span, "borrowed argument 的 referent-loan forwarding 尚未固化"),
        ),
        Demand::ForwardedAlias => Err(
            error(span, "borrowed alias argument 的 referent-loan forwarding 尚未固化"),
        ),
        Demand::Lend(kind, source) => {
            let loan_id = match loan_for_site(site, loans, next_loan_id, span) {
                Ok(id) => id,
                Err(error) => {
                    return Err(error);
                },
            };
            Ok(
                match kind {
                    BorrowKind::Read => ArgumentPass::ReadBorrow { loan_id, source },
                    BorrowKind::Write => ArgumentPass::WriteBorrow { loan_id, source },
                },
            )
        },
        Demand::Temporary(kind) => Ok(ArgumentPass::BorrowTemporary { kind }),
        Demand::Unstable => Err(
            error(span, "borrow parameter 的动态实参必须是 stable Place 或 OwnedTemporary"),
        ),
    }
}

/// A planned pass is a valid pass.
pub proof fn law_planned_pass_is_valid<'a>(
    value: Expr,
    effect: ParamEffect,
    facts: FactsView<'a>,
    site: PassSite,
    book: LoanBook,
    pass: ArgumentPass,
)
    requires
        planned_pass(value, effect, facts, site, book) matches Ok((tree, _)) && pass_tree(
            Some(pass),
        ) == tree,
    ensures
        pass_fault(value, effect, pass, facts) is None,
{
    match demand_of(value, effect, facts) {
        DemandView::Lend(kind, place) => {
            let (tree, _) = planned_pass(value, effect, facts, site, book)->Ok_0;
            assert(tree.kids[0] == place);
            match pass {
                ArgumentPass::ReadBorrow { source, .. } => {
                    assert(pass_tree(Some(pass)).kids[0] == place_tree(source));
                    law_place_is_its_own_storage(source);
                },
                ArgumentPass::WriteBorrow { source, .. } => {
                    assert(pass_tree(Some(pass)).kids[0] == place_tree(source));
                    law_place_is_its_own_storage(source);
                },
                _ => {},
            }
        },
        _ => {},
    }
}

proof fn lemma_loan_pushed(loans: Seq<(PassSite, LoanId)>, site: PassSite, id: LoanId)
    ensures
        loan_at(loans.push((site, id)), site) == Some(id),
        forall|other: PassSite|
            other != site ==> #[trigger] loan_at(loans.push((site, id)), other) == loan_at(
                loans,
                other,
            ),
{
    let after = loans.push((site, id));
    assert(after.drop_last() =~= loans);
    assert(after.last() == (site, id));
}

/// Every loan in the book has a number below the next one, and no two sites share a loan.
pub open spec fn book_ok(book: LoanBook, first: u32) -> bool {
    &&& first <= book.next
    &&& forall|a: PassSite|
        #[trigger] loan_at(book.loans, a) matches Some(id) ==> first <= id.0 < book.next
    &&& forall|a: PassSite, b: PassSite|
        a != b && #[trigger] loan_at(book.loans, a) is Some ==> #[trigger] loan_at(
            book.loans,
            b,
        ) != loan_at(book.loans, a)
}

/// A site keeps its loan, and no two sites ever share one.
pub proof fn law_sites_keep_their_loans(book: LoanBook, first: u32, site: PassSite, span: Span)
    requires
        book_ok(book, first),
    ensures
        site_loan(book, site, span) matches Ok((id, after)) ==> {
            &&& book_ok(after, first)
            &&& loan_at(after.loans, site) == Some(id)
            &&& site_loan(after, site, span) == Ok::<(LoanId, LoanBook), ErrorView>((id, after))
            &&& forall|other: PassSite|
                #[trigger] loan_at(book.loans, other) is Some ==> loan_at(after.loans, other)
                    == loan_at(book.loans, other)
        },
{
    if loan_at(book.loans, site) is None && book.next < u32::MAX {
        lemma_loan_pushed(book.loans, site, LoanId(book.next));
    }
}

} // verus!
