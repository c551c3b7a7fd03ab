//! How values move between owners.
//!
//! Who owns a value decides how it is passed, stored, bound and handed back.

use crate::argument_passes::{LoanBook, PassSite, pass_fault, planned_pass};
use crate::call_results::{planned_result, writable};
use crate::effects::{initial_of, joined};
use crate::expr_places::{place_of, same_storage, tree_root};
use crate::function_facts::{FactsView, field_writability, is_alias, meta_of};
use crate::model::{
    ArgumentPass, AssignmentOperation, Binding, BindingOperation, BorrowKind, CallArg, CallResult,
    CallTarget, Expr, ExprCategory, Item, MethodTarget, OwnershipCapability, OwningWrite, Pattern,
    Place, ResolvedConversion, RuntimeCheckRequirement, StorageRelation, ValueCategory, place_root,
};
use crate::ownership_capabilities::category_capability;
use crate::ownership_operations::{assignment_of, settled_binding, write_of};
use crate::pattern_bindings::{OperationView, operation_of};
use crate::return_laws::{lent_root, owns_storage};
use crate::runtime_checks::{constant_index, index_fault};
use crate::storage_relations::relation_of;
use crate::tree::{Label, Tree, place_tree};
use crate::types::{
    BindingId, ErrorView, FunctionId, LoanId, ParamEffect, ReturnBorrowSource, ReturnEffect, Span,
    TyView,
};
use crate::value_categories::category_of;
use vstd::prelude::*;

verus! {

/// A scalar: to copy the value is to copy all of it.
pub open spec fn scalar(ty: TyView) -> bool {
    match ty {
        TyView::Int(_) => true,
        TyView::UInt(_) => true,
        TyView::Float(_) => true,
        TyView::Bool => true,
        _ => false,
    }
}

/// What a call was found to hand back.
pub open spec fn gives_back(result: Option<Box<CallResult>>) -> Option<CallResult> {
    match result {
        Some(found) => Some(*found),
        None => None,
    }
}

/// The value is an alias of what somebody else owns.
pub open spec fn is_alias_value(expr: Expr) -> bool {
    match expr {
        Expr::Borrow { .. } => true,
        Expr::Refer { .. } => true,
        Expr::Call { result, target: CallTarget::FunctionValue, .. } => gives_back(result) matches
            Some(CallResult::Borrowed { .. }),
        Expr::MethodCall { result, target: MethodTarget::User { .. }, .. } => gives_back(
            result,
        ) matches Some(CallResult::Borrowed { .. }),
        _ => false,
    }
}

/// A variable, or a part of something.
pub open spec fn is_place(expr: Expr) -> bool {
    match expr {
        Expr::Ident(_, id, _, _) => id is Some,
        Expr::Field { .. } => true,
        Expr::Index { .. } => true,
        _ => false,
    }
}

/// The category of a value says who owns it: aliases are what borrowing, referring and calls
/// that lend give; a place is a variable or a part; nothing scalar that is moved, cast or popped
/// has an owner, and everything else that is moved or made has one.
pub proof fn law_categories_tell_who_owns(expr: Expr, category: ExprCategory)
    requires
        category_of(expr) == Ok::<ExprCategory, ErrorView>(category),
        !(expr matches Expr::Convert { mode: ResolvedConversion::Identity, .. }),
    ensures
        category is Place <==> is_place(expr),
        category == ExprCategory::Value(ValueCategory::BorrowedValue) <==> is_alias_value(expr),
        category == ExprCategory::Value(ValueCategory::InlineValue) ==> scalar(expr.tyv()),
        match expr {
            Expr::Move { .. } => (category == ExprCategory::Value(ValueCategory::OwnedTemporary))
                == owns_storage(expr.tyv()),
            Expr::Cast { .. } => (category == ExprCategory::Value(ValueCategory::OwnedTemporary))
                == owns_storage(expr.tyv()),
            Expr::Convert { .. } => (category == ExprCategory::Value(
                ValueCategory::OwnedTemporary,
            )) == owns_storage(expr.tyv()),
            Expr::MethodCall { target: MethodTarget::ArrayPop, .. } => (category
                == ExprCategory::Value(ValueCategory::OwnedTemporary)) == owns_storage(expr.tyv()),
            Expr::Str(_, _, _) => category == ExprCategory::Value(ValueCategory::OwnedTemporary),
            Expr::ArrayLit { .. } => category == ExprCategory::Value(
                ValueCategory::OwnedTemporary,
            ),
            Expr::FuncLit { .. } => category == ExprCategory::Value(ValueCategory::OwnedTemporary),
            Expr::Call { target: CallTarget::StructConstructor { .. }, .. } => category
                == ExprCategory::Value(ValueCategory::OwnedTemporary),
            Expr::Call { target: CallTarget::ResultConstructor(_), .. } => category
                == ExprCategory::Value(ValueCategory::OwnedTemporary),
            Expr::Call { result, target: CallTarget::FunctionValue, .. } => (category
                == ExprCategory::Value(ValueCategory::OwnedTemporary)) == (gives_back(result)
                == Some(CallResult::Owned)),
            Expr::MethodCall { result, target: MethodTarget::User { .. }, .. } => (category
                == ExprCategory::Value(ValueCategory::OwnedTemporary)) == (gives_back(result)
                == Some(CallResult::Owned)),
            Expr::Int(_, _, _) => category != ExprCategory::Value(ValueCategory::OwnedTemporary),
            Expr::Float(_, _, _) => category != ExprCategory::Value(ValueCategory::OwnedTemporary),
            Expr::Bool(_, _, _) => category != ExprCategory::Value(ValueCategory::OwnedTemporary),
            Expr::Binary { .. } => category != ExprCategory::Value(ValueCategory::OwnedTemporary),
            Expr::Neg { .. } => category != ExprCategory::Value(ValueCategory::OwnedTemporary),
            Expr::Not { .. } => category != ExprCategory::Value(ValueCategory::OwnedTemporary),
            _ => true,
        },
        scalar(expr.tyv()) && !is_place(expr) ==> category == ExprCategory::Value(
            ValueCategory::InlineValue,
        ) || category == ExprCategory::Value(ValueCategory::OwnedTemporary) || category
            == ExprCategory::Value(ValueCategory::BorrowedValue),
{
}

/// An identity conversion is owned by whoever owns what it converts.
pub proof fn law_identity_keeps_the_owner(expr: Expr)
    ensures
        expr matches Expr::Convert { expr: inner, mode: ResolvedConversion::Identity, .. } ==> match (
            category_of(expr),
            inner.spec_info().category,
        ) {
            (Ok(found), Some(known)) => found == known,
            (Err(_), None) => true,
            _ => false,
        },
{
}

/// Only a fresh value can give its ownership away, and a variable that takes it becomes an
/// owner. A variable that takes an alias becomes an alias.
pub proof fn law_categories_agree_on_the_owner(value: Expr, category: ExprCategory)
    requires
        value.spec_info().category == Some(category),
    ensures
        category_capability(category) == Some(OwnershipCapability::Available) <==> category
            == ExprCategory::Value(ValueCategory::OwnedTemporary),
        category_capability(category) is None <==> category is Place || category
            == ExprCategory::Value(ValueCategory::General),
        relation_of(value) is Ok,
        relation_of(value) == Ok::<Option<StorageRelation>, ErrorView>(
            Some(StorageRelation::Borrowed),
        ) <==> category == ExprCategory::Value(ValueCategory::BorrowedValue),
        category_capability(category) == Some(OwnershipCapability::Available) ==> relation_of(value)
            == Ok::<Option<StorageRelation>, ErrorView>(Some(StorageRelation::Owning)),
        category is Place ==> (relation_of(value) == Ok::<Option<StorageRelation>, ErrorView>(
            Some(StorageRelation::Owning),
        ) <==> scalar(value.tyv())),
        category == ExprCategory::Value(ValueCategory::InlineValue) ==> relation_of(value) == Ok::<
            Option<StorageRelation>,
            ErrorView,
        >(Some(StorageRelation::Owning)),
{
}

/// The variable that an expression names a part of, conversions that change nothing aside.
pub open spec fn named(expr: Expr) -> Option<BindingId>
    decreases expr,
{
    match expr {
        Expr::Ident(_, id, _, _) => id,
        Expr::Field { recv, .. } => named(*recv),
        Expr::Index { recv, .. } => named(*recv),
        Expr::Convert { expr: inner, mode: ResolvedConversion::Identity, .. } => named(*inner),
        _ => None,
    }
}

pub proof fn lemma_named(expr: Expr)
    ensures
        place_of(expr) is Some <==> named(expr) is Some,
        place_of(expr) matches Some(place) ==> named(expr) == Some(tree_root(place)),
    decreases expr,
{
    match expr {
        Expr::Field { recv, .. } => lemma_named(*recv),
        Expr::Index { recv, .. } => lemma_named(*recv),
        Expr::Convert { expr: inner, mode: ResolvedConversion::Identity, .. } => lemma_named(
            *inner,
        ),
        _ => {},
    }
}

proof fn lemma_same_root(a: Tree, b: Tree)
    requires
        same_storage(a, b),
    ensures
        tree_root(a) == tree_root(b),
    decreases a,
{
    match (a.label, b.label) {
        (Label::FieldPlace(_, _), Label::FieldPlace(_, _)) => {
            lemma_same_root(a.kids[0], b.kids[0]);
        },
        (Label::IndexPlace(_, _), Label::IndexPlace(_, _)) => {
            lemma_same_root(a.kids[0], b.kids[0]);
        },
        _ => {},
    }
}

/// The value gives its ownership away.
pub open spec fn freely_given(value: Expr) -> bool {
    value.spec_info().category == Some(ExprCategory::Value(ValueCategory::OwnedTemporary))
        && value.spec_info().ownership_capability == Some(OwnershipCapability::Available)
}

/// Arguments are passed as the parameter asks: what owns no storage by value; to a parameter that
/// becomes the owner only what gives its ownership away; to one that reads or writes a loan of
/// that kind, of the very variable that the argument names and that is no alias, or a temporary.
pub proof fn law_arguments_are_passed_as_asked<'a>(
    value: Expr,
    effect: ParamEffect,
    pass: ArgumentPass,
    facts: FactsView<'a>,
)
    requires
        pass_fault(value, effect, pass, facts) is None,
    ensures
        pass is Inline <==> !owns_storage(value.tyv()),
        owns_storage(value.tyv()) ==> match effect {
            ParamEffect::Owned => pass is Owned && freely_given(value),
            ParamEffect::ReadBorrow => match pass {
                ArgumentPass::ReadBorrow { source, .. } => named(value) == Some(place_root(source))
                    && !is_alias(facts, place_root(source)),
                ArgumentPass::BorrowTemporary { kind } => kind == BorrowKind::Read && named(value)
                    is None,
                _ => false,
            },
            ParamEffect::WriteBorrow => match pass {
                ArgumentPass::WriteBorrow { source, .. } => named(value) == Some(
                    place_root(source),
                ) && !is_alias(facts, place_root(source)),
                ArgumentPass::BorrowTemporary { kind } => kind == BorrowKind::Write && named(value)
                    is None,
                _ => false,
            },
        },
{
    lemma_named(value);
    if let Some(place) = place_of(value) {
        match pass {
            ArgumentPass::ReadBorrow { source, .. } => {
                crate::expr_places::lemma_place_root(source);
                if same_storage(place_tree(source), place) {
                    lemma_same_root(place_tree(source), place);
                }
            },
            ArgumentPass::WriteBorrow { source, .. } => {
                crate::expr_places::lemma_place_root(source);
                if same_storage(place_tree(source), place) {
                    lemma_same_root(place_tree(source), place);
                }
            },
            _ => {},
        }
    }
}

/// A pass can be planned for every argument that meets what its parameter asks, as long as there
/// are loans left, and for no other.
pub proof fn law_passes_are_planned_where_they_can_be<'a>(
    value: Expr,
    effect: ParamEffect,
    facts: FactsView<'a>,
    site: PassSite,
    book: LoanBook,
)
    requires
        book.next < u32::MAX,
    ensures
        planned_pass(value, effect, facts, site, book) is Ok <==> {
            ||| !owns_storage(value.tyv())
            ||| effect is Owned && freely_given(value)
            ||| !(effect is Owned) && value.spec_info().category != Some(
                ExprCategory::Value(ValueCategory::BorrowedValue),
            ) && match named(value) {
                Some(root) => !is_alias(facts, root),
                None => value.spec_info().category == Some(
                    ExprCategory::Value(ValueCategory::OwnedTemporary),
                ),
            }
        },
{
    lemma_named(value);
}

/// The result of a call comes back as the function hands it out: an alias under the next loan, of
/// the variable behind the argument that the function says, and never outside all functions.
pub proof fn law_results_come_back_as_handed_out<'a>(
    effect: ReturnEffect,
    receiver_pass: Option<ArgumentPass>,
    args: Seq<CallArg>,
    current: Option<FunctionId>,
    facts: FactsView<'a>,
    next: u32,
    span: Span,
    tree: Tree,
    after: u32,
)
    requires
        planned_result(effect, receiver_pass, args, current, facts, next, span) == Ok::<
            (Tree, u32),
            ErrorView,
        >((tree, after)),
    ensures
        match effect {
            ReturnEffect::Inline => tree.label == Label::ResultInline && after == next,
            ReturnEffect::Owned => tree.label == Label::ResultOwned && after == next,
            ReturnEffect::Borrowed(source) => {
                &&& current is Some
                &&& after == next + 1
                &&& tree.label matches Label::ResultBorrowed(loan, flag, kind) && loan == LoanId(
                    next,
                ) && kind is None && writable(tree.kids[0], facts) == Ok::<bool, ErrorView>(flag)
                &&& match source {
                    ReturnBorrowSource::SelfValue => match receiver_pass {
                        Some(pass) => lent_root(pass) == Some(tree_root(tree.kids[0])),
                        None => false,
                    },
                    ReturnBorrowSource::Parameter(k) => k < args.len() && match args[k as int].pass {
                        Some(pass) => lent_root(pass) == Some(tree_root(tree.kids[0])),
                        None => false,
                    },
                    ReturnBorrowSource::Global(id) => tree_root(tree.kids[0]) == id,
                }
            },
        },
{
    if let ReturnEffect::Borrowed(source) = effect {
        match source {
            ReturnBorrowSource::SelfValue => lemma_lent_root(receiver_pass->0),
            ReturnBorrowSource::Parameter(k) => lemma_lent_root(args[k as int].pass->0),
            ReturnBorrowSource::Global(_) => {},
        }
    }
}

proof fn lemma_lent_root(pass: ArgumentPass)
    ensures
        match pass {
            ArgumentPass::ReadBorrow { source, .. } => tree_root(place_tree(source)) == place_root(
                source,
            ),
            ArgumentPass::WriteBorrow { source, .. } => tree_root(place_tree(source))
                == place_root(source),
            _ => true,
        },
{
    match pass {
        ArgumentPass::ReadBorrow { source, .. } => crate::expr_places::lemma_place_root(source),
        ArgumentPass::WriteBorrow { source, .. } => crate::expr_places::lemma_place_root(source),
        _ => {},
    }
}

/// Storage gets a copy of a scalar or the ownership of a fresh value, and nothing else: never an
/// alias, and never what somebody else keeps.
pub proof fn law_storage_gets_copies_or_owners(value: Expr, write: OwningWrite)
    requires
        write_of(value) == Ok::<Option<OwningWrite>, ErrorView>(Some(write)),
    ensures
        write is OwnershipTransfer <==> freely_given(value),
        write is InlineCopy ==> value.spec_info().category != Some(
            ExprCategory::Value(ValueCategory::BorrowedValue),
        ) && value.spec_info().category != Some(
            ExprCategory::Value(ValueCategory::OwnedTemporary),
        ),
        write is InlineCopy && value.spec_info().category != Some(
            ExprCategory::Value(ValueCategory::InlineValue),
        ) ==> scalar(value.tyv()) && named(value) is None,
{
    lemma_named(value);
}

/// An alias is bound to nothing but another alias, and an owner gets nothing but what storage
/// gets.
pub proof fn law_aliases_take_aliases(
    value: Expr,
    rebinds_alias: bool,
    operation: AssignmentOperation,
)
    requires
        assignment_of(value, rebinds_alias) == Ok::<Option<AssignmentOperation>, ErrorView>(
            Some(operation),
        ),
    ensures
        operation is RebindBorrowedAlias <==> rebinds_alias,
        operation is RebindBorrowedAlias ==> value.spec_info().category == Some(
            ExprCategory::Value(ValueCategory::BorrowedValue),
        ),
        operation matches AssignmentOperation::Replace(write) ==> write_of(value) == Ok::<
            Option<OwningWrite>,
            ErrorView,
        >(Some(write)),
{
}

/// A variable is initialised as its relation to its storage says.
pub proof fn law_variables_start_as_recorded(binding: Binding, operation: BindingOperation)
    requires
        settled_binding(binding) == Ok::<BindingOperation, ErrorView>(operation),
    ensures
        operation is BindBorrowedAlias <==> binding.relation == Some(StorageRelation::Borrowed),
        operation is Initialize <==> binding.relation == Some(StorageRelation::Owning),
        operation is BindBorrowedAlias ==> binding.value.spec_info().category == Some(
            ExprCategory::Value(ValueCategory::BorrowedValue),
        ),
        operation == BindingOperation::Initialize(OwningWrite::OwnershipTransfer) ==> freely_given(
            binding.value,
        ),
{
}

/// A pattern takes over the ownership of a whole fresh value only; a scalar is copied, and
/// everything else is cloned. The value inside a result is never moved out of it.
pub proof fn law_patterns_take_over_fresh_values_only(
    subject: Expr,
    pattern: Pattern,
    has_binding_id: bool,
    table: Map<Seq<char>, Seq<TyView>>,
    operation: OperationView,
)
    requires
        operation_of(subject, pattern, has_binding_id, table) == Ok::<
            Option<OperationView>,
            ErrorView,
        >(Some(operation)),
    ensures
        has_binding_id,
        operation is OwnershipTransfer ==> pattern is Binding && freely_given(subject) && !scalar(
            subject.tyv(),
        ),
        pattern is Binding && freely_given(subject) && !scalar(subject.tyv())
            ==> operation is OwnershipTransfer,
        pattern is Binding && scalar(subject.tyv()) ==> operation is InlineCopy,
        operation matches OperationView::DeepClone(plan) ==> !(plan is Inline),
        pattern matches Pattern::Constructor { binding, .. } ==> binding is Some,
{
}

/// A place is written as it was declared: a variable where it is declared so, a field where its
/// struct says so, and an element never.
pub proof fn law_places_are_written_as_declared<'a>(place: Place, facts: FactsView<'a>)
    ensures
        match place {
            Place::Local { binding_id, .. } => match meta_of(facts, binding_id) {
                Some(meta) => writable(place_tree(place), facts) == Ok::<bool, ErrorView>(
                    meta.mutable,
                ),
                None => writable(place_tree(place), facts) is Err,
            },
            Place::Field { base, field_index, .. } => match base.spec_info().ty@ {
                TyView::Struct(name) => match field_writability(facts.program.items@, name) {
                    Some(flags) => if field_index < flags.len() {
                        writable(place_tree(place), facts) == Ok::<bool, ErrorView>(
                            flags[field_index as int],
                        )
                    } else {
                        writable(place_tree(place), facts) is Err
                    },
                    None => writable(place_tree(place), facts) is Err,
                },
                _ => writable(place_tree(place), facts) is Err,
            },
            Place::Index { .. } => writable(place_tree(place), facts) == Ok::<bool, ErrorView>(
                false,
            ),
        },
{
    match place {
        Place::Field { base, .. } => {
            assert(place_tree(place).kids[0] == place_tree(*base));
        },
        _ => {},
    }
}

/// The fields of a struct are writable as the first declaration of the struct says.
pub proof fn law_fields_are_writable_as_declared(items: Seq<Item>, name: Seq<char>, k: int)
    requires
        0 <= k < items.len(),
        items[k] matches Item::StructDef(def) && def.name@ == name,
        forall|j: int|
            0 <= j < k ==> !(#[trigger] items[j] matches Item::StructDef(def) && def.name@ == name),
    ensures
        field_writability(items, name) matches Some(flags) && items[k] matches Item::StructDef(def)
            && flags.len() == def.fields@.len() && forall|i: int|
            0 <= i < flags.len() ==> #[trigger] flags[i] == def.fields@[i].mutable,
    decreases items.len(),
{
    if k > 0 {
        let rest = items.drop_first();
        assert(rest[k - 1] == items[k]);
        assert forall|j: int| 0 <= j < k - 1 implies !(#[trigger] rest[j] matches Item::StructDef(
            def,
        ) && def.name@ == name) by {
            assert(rest[j] == items[j + 1]);
        }
        assert(!(items[0] matches Item::StructDef(def) && def.name@ == name));
        law_fields_are_writable_as_declared(rest, name, k - 1);
    }
}

/// A bounds check is left out only where an array is written out and the index, written out too,
/// lies within it; one that lies outside is refused.
pub proof fn law_bounds_are_checked_unless_written_out(
    receiver: Expr,
    index: Expr,
    recorded: RuntimeCheckRequirement,
    span: Span,
)
    ensures
        index_fault(receiver, index, recorded, span) is None <==> match (receiver, constant_index(index)) {
            (Expr::ArrayLit { elems, .. }, Some(value)) => 0 <= value && value < elems@.len()
                && recorded is Proven,
            _ => recorded is Required,
        },
{
}

/// What a parameter is taken to do with its argument at first: nothing but read what owns
/// storage, and own what does not.
pub proof fn law_parameters_start_weak(ty: TyView)
    ensures
        initial_of(ty) is ReadBorrow <==> owns_storage(ty),
        initial_of(ty) is Owned <==> !owns_storage(ty),
{
}

/// Owning is stronger than writing, and writing than reading; of two effects the stronger counts.
pub proof fn law_the_stronger_effect_counts(a: Seq<ParamEffect>, b: Seq<ParamEffect>, i: int)
    requires
        a.len() == b.len(),
        0 <= i < a.len(),
    ensures
        joined(a, b).len() == a.len(),
        joined(a, b)[i] is Owned <==> a[i] is Owned || b[i] is Owned,
        joined(a, b)[i] is ReadBorrow <==> a[i] is ReadBorrow && b[i] is ReadBorrow,
{
}

} // verus!
