//! What a program says about its variables and functions, for whoever works out effects.

use crate::model::{
    BindKind, Binding, BindingOwner, CheckedProgram, Expr, Item, Stmt, StorageRelation,
};
use crate::ownership_operations::binding_at;
use crate::types::{
    AliasResult, BindingId, ErrorView, FunctionId, MethodId, Span, Ty, TyView, broken_at,
    broken_invariant, fault_of, ty_views,
};
use crate::visit::{
    Node, Visit, Walk, item_visits, law_first_child_follows, lemma_program_walk, program_nodes,
    program_walk,
};
use vstd::prelude::*;

verus! {

/// The variables and functions of a program, in the order of the walk.
pub struct ProgramFacts<'a> {
    pub program: &'a CheckedProgram,
    pub bindings: Vec<&'a Binding>,
    pub functions: Vec<&'a Expr>,
}

/// The mathematical value of the facts.
pub struct FactsView<'a> {
    pub program: &'a CheckedProgram,
    pub bindings: Seq<&'a Binding>,
    pub functions: Seq<&'a Expr>,
}

impl<'a> View for ProgramFacts<'a> {
    type V = FactsView<'a>;

    open spec fn view(&self) -> FactsView<'a> {
        FactsView {
            program: self.program,
            bindings: self.bindings@,
            functions: self.functions@,
        }
    }
}

pub open spec fn effect_walk() -> Walk {
    Walk { every_callee: true, into_functions: true, value_first: true, subject_last: false }
}

/// The binding of a variable.
pub open spec fn binding_in<'a>(bindings: Seq<&'a Binding>, id: BindingId) -> Option<&'a Binding>
    decreases bindings.len(),
{
    if bindings.len() == 0 {
        None
    } else if bindings.last().binding_id == id {
        Some(bindings.last())
    } else {
        binding_in(bindings.drop_last(), id)
    }
}

pub open spec fn function_id_of(expr: Expr) -> Option<FunctionId> {
    match expr {
        Expr::FuncLit { function_id, .. } => Some(function_id),
        _ => None,
    }
}

/// The function with an id.
pub open spec fn function_in<'a>(functions: Seq<&'a Expr>, id: FunctionId) -> Option<&'a Expr>
    decreases functions.len(),
{
    if functions.len() == 0 {
        None
    } else if function_id_of(*functions.last()) == Some(id) {
        Some(functions.last())
    } else {
        function_in(functions.drop_last(), id)
    }
}

/// The parameters of a function, the implicit ones first.
pub open spec fn param_ids(function: Expr) -> Seq<BindingId> {
    match function {
        Expr::FuncLit { params, implicit_bindings, .. } => implicit_bindings@ + Seq::new(
            params@.len(),
            |i: int| params@[i].binding_id,
        ),
        _ => Seq::empty(),
    }
}

/// The types of the parameters of a function.
pub open spec fn param_types(function: Expr) -> Seq<TyView> {
    match function.tyv() {
        TyView::Func { params, .. } => params,
        _ => Seq::empty(),
    }
}

pub open spec fn implicit_count(function: Expr) -> nat {
    match function {
        Expr::FuncLit { implicit_bindings, .. } => implicit_bindings@.len(),
        _ => 0,
    }
}

/// What is wrong with a function literal, given those before it.
pub open spec fn function_fault<'a>(functions: Seq<&'a Expr>, expr: Expr) -> Option<ErrorView> {
    if !(expr.tyv() is Func) {
        Some(broken_at(expr.spec_span(), "FuncLit 缺少完整函数类型"@))
    } else if param_ids(expr).len() != param_types(expr).len() {
        Some(
            broken_at(expr.spec_span(), "FuncLit 参数 BindingId 与函数类型数量不一致"@),
        )
    } else if function_id_of(expr) matches Some(id) && function_in(functions, id) is Some {
        Some(broken_at(expr.spec_span(), "FunctionId 重复"@))
    } else {
        None
    }
}

/// What is known after one more node.
pub open spec fn noted<'a>(facts: FactsView<'a>, visit: Visit<'a>) -> Result<
    FactsView<'a>,
    ErrorView,
> {
    match binding_at(visit) {
        Some(binding) => if binding_in(facts.bindings, binding.binding_id) is Some {
            Err(broken_at(binding.span, "parameter effect 遇到重复 BindingId"@))
        } else {
            Ok(FactsView { bindings: facts.bindings.push(binding), ..facts })
        },
        None => match visit.node {
            Node::Expr(expr, _) => match *expr {
                Expr::FuncLit { .. } => match function_fault(facts.functions, *expr) {
                    Some(error) => Err(error),
                    None => Ok(FactsView { functions: facts.functions.push(expr), ..facts }),
                },
                _ => Ok(facts),
            },
            _ => Ok(facts),
        },
    }
}

pub open spec fn facts_from<'a>(program: &'a CheckedProgram, nodes: Seq<Visit<'a>>) -> Result<
    FactsView<'a>,
    ErrorView,
>
    decreases nodes.len(),
{
    if nodes.len() == 0 {
        Ok(FactsView { program, bindings: Seq::empty(), functions: Seq::empty() })
    } else {
        match facts_from(program, nodes.drop_last()) {
            Err(error) => Err(error),
            Ok(facts) => noted(facts, nodes.last()),
        }
    }
}

/// The variables and functions of a program, or the first declaration that is wrong.
pub open spec fn program_facts<'a>(program: &'a CheckedProgram) -> Result<
    FactsView<'a>,
    ErrorView,
> {
    facts_from(program, program_walk(effect_walk(), program))
}

/// Every function is a literal of a function type with as many types as parameters.
pub open spec fn functions_ok<'a>(functions: Seq<&'a Expr>) -> bool {
    forall|i: int|
        0 <= i < functions.len() ==> {
            &&& *(#[trigger] functions[i]) is FuncLit
            &&& functions[i].tyv() is Func
            &&& param_ids(*functions[i]).len() == param_types(*functions[i]).len()
        }
}

/// A function that is found is one of the functions.
pub proof fn lemma_function_found<'a>(functions: Seq<&'a Expr>, id: FunctionId)
    ensures
        function_in(functions, id) matches Some(function) ==> function_id_of(*function) == Some(id)
            && exists|i: int| 0 <= i < functions.len() && #[trigger] functions[i] == function,
    decreases functions.len(),
{
    if functions.len() > 0 {
        lemma_function_found(functions.drop_last(), id);
        if function_id_of(*functions.last()) == Some(id) {
            assert(functions[functions.len() - 1] == functions.last());
        } else if function_in(functions, id) is Some {
            let rest = functions.drop_last();
            let i = choose|i: int|
                0 <= i < rest.len() && #[trigger] rest[i] == function_in(functions, id)->0;
            assert(functions[i] == rest[i]);
        }
    }
}

/// The function that a variable stands for, if its value is a function literal.
pub open spec fn bound_function<'a>(facts: FactsView<'a>, id: BindingId) -> Option<FunctionId> {
    match binding_in(facts.bindings, id) {
        Some(binding) => function_id_of(binding.value),
        None => None,
    }
}

/// The function of a method.
pub open spec fn method_in<'a>(bindings: Seq<&'a Binding>, id: MethodId) -> Option<FunctionId>
    decreases bindings.len(),
{
    if bindings.len() == 0 {
        None
    } else {
        let binding = bindings.last();
        match (binding.owner, function_id_of(binding.value)) {
            (BindingOwner::Method { method_id, .. }, Some(function_id)) if method_id == id => Some(
                function_id,
            ),
            _ => method_in(bindings.drop_last(), id),
        }
    }
}

pub open spec fn is_alias<'a>(facts: FactsView<'a>, id: BindingId) -> bool {
    binding_in(facts.bindings, id) matches Some(binding) && binding.relation == Some(
        StorageRelation::Borrowed,
    )
}

/// The variable stands outside all functions.
pub open spec fn is_global(items: Seq<Item>, id: BindingId) -> bool {
    exists|i: int|
        0 <= i < items.len() && (#[trigger] items[i] matches Item::Binding(binding)
            && binding.binding_id == id)
}

/// The function takes the variable from its surroundings.
pub open spec fn captures_var(function: Expr, id: BindingId) -> bool {
    function matches Expr::FuncLit { captures, .. } && exists|i: int|
        0 <= i < captures@.len() && (#[trigger] captures@[i]).binding_id == id
}

pub struct MetaView {
    pub ty: TyView,
    pub mutable: bool,
    pub span: Span,
}

/// What a parameter is known by: the first function that has it says.
pub open spec fn param_meta<'a>(functions: Seq<&'a Expr>, id: BindingId) -> Option<MetaView>
    decreases functions.len(),
{
    if functions.len() == 0 {
        None
    } else {
        let function = *functions[0];
        let ids = param_ids(function);
        if ids.contains(id) {
            Some(
                MetaView {
                    ty: param_types(function)[ids.index_of_first(id)->0],
                    mutable: false,
                    span: function.spec_span(),
                },
            )
        } else {
            param_meta(functions.drop_first(), id)
        }
    }
}

/// What a variable is known by.
pub open spec fn meta_of<'a>(facts: FactsView<'a>, id: BindingId) -> Option<MetaView> {
    match binding_in(facts.bindings, id) {
        Some(binding) => Some(
            MetaView { ty: binding.ty@, mutable: binding.kind == BindKind::Var, span: binding.span },
        ),
        None => param_meta(facts.functions, id),
    }
}

/// Which fields of a struct can be written.
pub open spec fn field_writability(items: Seq<Item>, name: Seq<char>) -> Option<Seq<bool>>
    decreases items.len(),
{
    if items.len() == 0 {
        None
    } else {
        match items[0] {
            Item::StructDef(def) if def.name@ == name => Some(
                Seq::new(def.fields@.len(), |i: int| def.fields@[i].mutable),
            ),
            _ => field_writability(items.drop_first(), name),
        }
    }
}

proof fn lemma_facts_stop<'a>(program: &'a CheckedProgram, nodes: Seq<Visit<'a>>, upto: int)
    requires
        0 <= upto <= nodes.len(),
        facts_from(program, nodes.take(upto)) is Err,
    ensures
        facts_from(program, nodes) == facts_from(program, nodes.take(upto)),
    decreases nodes.len(),
{
    if upto == nodes.len() {
        assert(nodes.take(upto) =~= nodes);
    } else {
        assert(nodes.drop_last().take(upto) =~= nodes.take(upto));
        lemma_facts_stop(program, nodes.drop_last(), upto);
    }
}

impl<'a> ProgramFacts<'a> {
    /// The binding of a variable.
    pub fn binding(&self, id: BindingId) -> (r: Option<&'a Binding>)
        ensures
            r == binding_in(self@.bindings, id),
    {
        let mut left: usize = self.bindings.len();
        assert(self.bindings@.take(left as int) =~= self.bindings@);
        while left > 0
            invariant
                left <= self.bindings.len(),
                binding_in(self.bindings@, id) == binding_in(self.bindings@.take(left as int), id),
            decreases left,
        {
            assert(self.bindings@.take(left as int).drop_last() =~= self.bindings@.take(left - 1));
            left -= 1;
            if self.bindings[left].binding_id == id {
                return Some(self.bindings[left]);
            }
        }
        None
    }

    /// The function with an id.
    pub fn function(&self, id: FunctionId) -> (r: Option<&'a Expr>)
        ensures
            r == function_in(self@.functions, id),
    {
        let mut left: usize = self.functions.len();
        assert(self.functions@.take(left as int) =~= self.functions@);
        while left > 0
            invariant
                left <= self.functions.len(),
                function_in(self.functions@, id) == function_in(
                    self.functions@.take(left as int),
                    id,
                ),
            decreases left,
        {
            assert(self.functions@.take(left as int).drop_last() =~= self.functions@.take(
                left - 1,
            ));
            left -= 1;
            if let Expr::FuncLit { function_id, .. } = self.functions[left] {
                if *function_id == id {
                    return Some(self.functions[left]);
                }
            }
        }
        None
    }

    /// The function that a variable stands for.
    pub fn bound(&self, id: BindingId) -> (r: Option<FunctionId>)
        ensures
            r == bound_function(self@, id),
    {
        match self.binding(id) {
            Some(binding) => match &binding.value {
                Expr::FuncLit { function_id, .. } => Some(*function_id),
                _ => None,
            },
            None => None,
        }
    }

    /// The function of a method.
    pub fn method(&self, id: MethodId) -> (r: Option<FunctionId>)
        ensures
            r == method_in(self@.bindings, id),
    {
        let mut left: usize = self.bindings.len();
        assert(self.bindings@.take(left as int) =~= self.bindings@);
        while left > 0
            invariant
                left <= self.bindings.len(),
                method_in(self.bindings@, id) == method_in(self.bindings@.take(left as int), id),
            decreases left,
        {
            assert(self.bindings@.take(left as int).drop_last() =~= self.bindings@.take(left - 1));
            left -= 1;
            let binding = self.bindings[left];
            if let BindingOwner::Method { method_id, .. } = &binding.owner {
                if let Expr::FuncLit { function_id, .. } = &binding.value {
                    if *method_id == id {
                        return Some(*function_id);
                    }
                }
            }
        }
        None
    }

    pub fn alias(&self, id: BindingId) -> (r: bool)
        ensures
            r == is_alias(self@, id),
    {
        match self.binding(id) {
            Some(binding) => match binding.relation {
                Some(relation) => relation == StorageRelation::Borrowed,
                None => false,
            },
            None => false,
        }
    }

    /// Whether the variable stands outside all functions.
    pub fn global(&self, id: BindingId) -> (r: bool)
        ensures
            r == is_global(self@.program.items@, id),
    {
        let items = &self.program.items;
        let mut i: usize = 0;
        while i < items.len()
            invariant
                i <= items.len(),
                items@ == self.program.items@,
                forall|k: int|
                    0 <= k < i ==> !(#[trigger] items@[k] matches Item::Binding(binding)
                        && binding.binding_id == id),
            decreases items.len() - i,
        {
            if let Item::Binding(binding) = &items[i] {
                if binding.binding_id == id {
                    assert(items@[i as int] matches Item::Binding(binding) && binding.binding_id
                        == id);
                    return true;
                }
            }
            i += 1;
        }
        false
    }

    /// Which fields of a struct can be written.
    pub fn writability(&self, name: &String) -> (r: Option<Vec<bool>>)
        ensures
            match field_writability(self@.program.items@, name@) {
                Some(list) => r matches Some(found) && found@ == list,
                None => r is None,
            },
    {
        let items = &self.program.items;
        let mut i: usize = 0;
        assert(items@.skip(0) =~= items@);
        while i < items.len()
            invariant
                i <= items.len(),
                items@ == self.program.items@,
                field_writability(items@, name@) == field_writability(items@.skip(i as int), name@),
            decreases items.len() - i,
        {
            assert(items@.skip(i as int).drop_first() =~= items@.skip(i + 1));
            assert(items@.skip(i as int)[0] == items@[i as int]);
            if let Item::StructDef(def) = &items[i] {
                if def.name == *name {
                    let mut list: Vec<bool> = Vec::new();
                    let mut k: usize = 0;
                    while k < def.fields.len()
                        invariant
                            k <= def.fields.len(),
                            list@.len() == k,
                            forall|j: int| 0 <= j < k ==> list@[j] == def.fields@[j].mutable,
                        decreases def.fields.len() - k,
                    {
                        list.push(def.fields[k].mutable);
                        k += 1;
                    }
                    assert(list@ =~= Seq::new(
                        def.fields@.len(),
                        |i: int| def.fields@[i].mutable,
                    ));
                    return Some(list);
                }
            }
            i += 1;
        }
        None
    }
}

/// What a variable is known by.
pub struct BindingMeta {
    pub ty: Ty,
    pub mutable: bool,
    pub span: Span,
}

impl View for BindingMeta {
    type V = MetaView;

    open spec fn view(&self) -> MetaView {
        MetaView { ty: self.ty@, mutable: self.mutable, span: self.span }
    }
}

impl<'a> ProgramFacts<'a> {
    /// What a variable is known by.
    pub fn meta(&self, id: BindingId) -> (r: Option<BindingMeta>)
        requires
            functions_ok(self@.functions),
        ensures
            match meta_of(self@, id) {
                Some(meta) => r matches Some(found) && found@ == meta,
                None => r is None,
            },
    {
        if let Some(binding) = self.binding(id) {
            return Some(
                BindingMeta {
                    ty: binding.ty.clone(),
                    mutable: binding.kind == BindKind::Var,
                    span: binding.span,
                },
            );
        }
        let mut i: usize = 0;
        assert(self.functions@.skip(0) =~= self.functions@);
        while i < self.functions.len()
            invariant
                i <= self.functions.len(),
                functions_ok(self@.functions),
                meta_of(self@, id) == param_meta(self.functions@.skip(i as int), id),
            decreases self.functions.len() - i,
        {
            let function = self.functions[i];
            proof {
                assert(self.functions@.skip(i as int).drop_first() =~= self.functions@.skip(
                    i + 1,
                ));
                assert(self.functions@.skip(i as int)[0] == function);
                assert(self@.functions[i as int] == function);
            }
            let ids = parameter_ids(function);
            let mut k: usize = 0;
            while k < ids.len()
                invariant
                    k <= ids.len(),
                    ids@ == param_ids(*function),
                    function.tyv() is Func,
                    ids@.len() == param_types(*function).len(),
                    meta_of(self@, id) == (if ids@.contains(id) {
                        Some(
                            MetaView {
                                ty: param_types(*function)[ids@.index_of_first(id)->0],
                                mutable: false,
                                span: function.spec_span(),
                            },
                        )
                    } else {
                        param_meta(self.functions@.skip(i + 1), id)
                    }),
                    forall|j: int| 0 <= j < k ==> ids@[j] != id,
                decreases ids.len() - k,
            {
                if ids[k] == id {
                    proof {
                        assert(ids@[k as int] == id);
                        ids@.index_of_first_ensures(id);
                        let at = ids@.index_of_first(id)->0;
                        if at < k {
                            assert(ids@[at] != id);
                        }
                        if k < at {
                            assert(ids@[k as int] != id);
                        }
                    }
                    if let Ty::Func { params, .. } = function.ty() {
                        assert(param_types(*function) == ty_views(params@));
                        return Some(
                            BindingMeta {
                                ty: params[k].clone(),
                                mutable: false,
                                span: function.span(),
                            },
                        );
                    }
                }
                k += 1;
            }
            i += 1;
        }
        None
    }
}

/// The parameters of a function, the implicit ones first.
pub fn parameter_ids(function: &Expr) -> (r: Vec<BindingId>)
    ensures
        r@ == param_ids(*function),
{
    let mut ids: Vec<BindingId> = Vec::new();
    if let Expr::FuncLit { params, implicit_bindings, .. } = function {
        let mut i: usize = 0;
        while i < implicit_bindings.len()
            invariant
                i <= implicit_bindings.len(),
                ids@ =~= implicit_bindings@.take(i as int),
            decreases implicit_bindings.len() - i,
        {
            ids.push(implicit_bindings[i]);
            i += 1;
        }
        let mut k: usize = 0;
        let ghost all = Seq::new(params@.len(), |i: int| params@[i].binding_id);
        while k < params.len()
            invariant
                k <= params.len(),
                all == Seq::new(params@.len(), |i: int| params@[i].binding_id),
                ids@ =~= implicit_bindings@ + all.take(k as int),
            decreases params.len() - k,
        {
            ids.push(params[k].binding_id);
            k += 1;
        }
        assert(all.take(k as int) =~= all);
    }
    ids
}

fn note_function<'a>(facts: &mut ProgramFacts<'a>, expr: &'a Expr, function_id: FunctionId) -> (r:
    AliasResult<()>)
    requires
        function_id_of(*expr) == Some(function_id),
        functions_ok(old(facts)@.functions),
    ensures
        functions_ok(final(facts)@.functions),
        final(facts).bindings == old(facts).bindings,
        final(facts).program == old(facts).program,
        fault_of(r) == function_fault(old(facts)@.functions, *expr),
        r is Ok ==> final(facts)@.functions == old(facts)@.functions.push(expr),
{
    let count = match expr.ty() {
        Ty::Func { params, .. } => {
            assert(param_types(*expr) == ty_views(params@));
            params.len()
        },
        _ => {
            return Err(broken_invariant(expr.span(), "FuncLit 缺少完整函数类型"));
        },
    };
    let ids = parameter_ids(expr);
    if ids.len() != count {
        return Err(
            broken_invariant(expr.span(), "FuncLit 参数 BindingId 与函数类型数量不一致"),
        );
    }
    if facts.function(function_id).is_some() {
        return Err(broken_invariant(expr.span(), "FunctionId 重复"));
    }
    facts.functions.push(expr);
    Ok(())
}

/// Collects the variables and functions of a program.
pub fn collect_facts<'a>(program: &'a CheckedProgram) -> (r: AliasResult<ProgramFacts<'a>>)
    ensures
        match program_facts(program) {
            Ok(facts) => r matches Ok(found) && found@ == facts && functions_ok(facts.functions)
                && bindings_known(facts),
            Err(error) => fault_of(r) == Some(error),
        },
{
    let nodes = program_nodes(
        Walk { every_callee: true, into_functions: true, value_first: true, subject_last: false },
        program,
    );
    let mut facts = ProgramFacts { program, bindings: Vec::new(), functions: Vec::new() };
    let mut i: usize = 0;
    assert(nodes@.take(0) =~= Seq::empty());
    while i < nodes.len()
        invariant
            i <= nodes.len(),
            nodes@ == program_walk(effect_walk(), program),
            facts.program == program,
            facts_from(program, nodes@.take(i as int)) == Ok::<FactsView<'a>, ErrorView>(facts@),
            functions_ok(facts@.functions),
        decreases nodes.len() - i,
    {
        proof {
            assert(nodes@.take(i + 1).drop_last() =~= nodes@.take(i as int));
            assert(nodes@.take(i + 1).last() == nodes@[i as int]);
        }
        match nodes[i].node {
            Node::Item(Item::Binding(binding)) => {
                if facts.binding(binding.binding_id).is_some() {
                    proof {
                        lemma_facts_stop(program, nodes@, i + 1);
                    }
                    return Err(
                        broken_invariant(binding.span, "parameter effect 遇到重复 BindingId"),
                    );
                }
                facts.bindings.push(binding);
            },
            Node::Stmt(Stmt::Binding(binding)) => {
                if facts.binding(binding.binding_id).is_some() {
                    proof {
                        lemma_facts_stop(program, nodes@, i + 1);
                    }
                    return Err(
                        broken_invariant(binding.span, "parameter effect 遇到重复 BindingId"),
                    );
                }
                facts.bindings.push(binding);
            },
            Node::Expr(expr, _) => {
                if let Expr::FuncLit { function_id, .. } = expr {
                    match note_function(&mut facts, expr, *function_id) {
                        Ok(_) => {},
                        Err(error) => {
                            proof {
                                lemma_facts_stop(program, nodes@, i + 1);
                            }
                            return Err(error);
                        },
                    }
                }
            },
            _ => {},
        }
        i += 1;
    }
    assert(nodes@.take(i as int) =~= nodes@);
    proof {
        law_bound_functions_are_known(program);
    }
    Ok(facts)
}

/// Where a program has settled facts, no variable is bound twice.
pub proof fn law_bindings_are_unique<'a>(
    program: &'a CheckedProgram,
    nodes: Seq<Visit<'a>>,
    i: int,
    j: int,
)
    requires
        facts_from(program, nodes) is Ok,
        0 <= i < j < facts_from(program, nodes)->Ok_0.bindings.len(),
    ensures
        facts_from(program, nodes)->Ok_0.bindings[i].binding_id != facts_from(
            program,
            nodes,
        )->Ok_0.bindings[j].binding_id,
    decreases nodes.len(),
{
    let rest = facts_from(program, nodes.drop_last())->Ok_0;
    match binding_at(nodes.last()) {
        Some(binding) => {
            if j < rest.bindings.len() {
                law_bindings_are_unique(program, nodes.drop_last(), i, j);
            } else {
                lemma_binding_absent(rest.bindings, binding.binding_id, i);
            }
        },
        None => {
            law_bindings_are_unique(program, nodes.drop_last(), i, j);
        },
    }
}

proof fn lemma_binding_absent<'a>(bindings: Seq<&'a Binding>, id: BindingId, i: int)
    requires
        binding_in(bindings, id) is None,
        0 <= i < bindings.len(),
    ensures
        bindings[i].binding_id != id,
    decreases bindings.len(),
{
    if i < bindings.len() - 1 {
        lemma_binding_absent(bindings.drop_last(), id, i);
    }
}

/// The functions that variables are bound to are among the functions.
pub open spec fn bindings_known<'a>(facts: FactsView<'a>) -> bool {
    forall|i: int|
        0 <= i < facts.bindings.len() ==> (#[trigger] facts.bindings[i]).value is FuncLit
            ==> facts.functions.contains(&facts.bindings[i].value)
}

proof fn lemma_function_noted<'a>(program: &'a CheckedProgram, nodes: Seq<Visit<'a>>, k: int)
    requires
        facts_from(program, nodes) is Ok,
        0 <= k < nodes.len(),
        nodes[k].node is Expr,
        *nodes[k].node->Expr_0 is FuncLit,
    ensures
        facts_from(program, nodes)->Ok_0.functions.contains(nodes[k].node->Expr_0),
    decreases nodes.len(),
{
    let after = facts_from(program, nodes)->Ok_0.functions;
    let rest = facts_from(program, nodes.drop_last())->Ok_0.functions;
    let function = nodes[k].node->Expr_0;
    if k == nodes.len() - 1 {
        assert(after[after.len() - 1] == function);
    } else {
        lemma_function_noted(program, nodes.drop_last(), k);
        let j = choose|j: int| 0 <= j < rest.len() && rest[j] == function;
        assert(after[j] == function);
    }
}

proof fn lemma_binding_noted<'a>(program: &'a CheckedProgram, nodes: Seq<Visit<'a>>, i: int) -> (k:
    int)
    requires
        facts_from(program, nodes) is Ok,
        0 <= i < facts_from(program, nodes)->Ok_0.bindings.len(),
    ensures
        0 <= k < nodes.len(),
        binding_at(nodes[k]) == Some(facts_from(program, nodes)->Ok_0.bindings[i]),
    decreases nodes.len(),
{
    let rest = facts_from(program, nodes.drop_last())->Ok_0;
    if i < rest.bindings.len() {
        lemma_binding_noted(program, nodes.drop_last(), i)
    } else {
        nodes.len() - 1
    }
}

/// In the facts of a program, the functions that variables are bound to are among the
/// functions.
pub proof fn law_bound_functions_are_known<'a>(program: &'a CheckedProgram)
    requires
        program_facts(program) is Ok,
    ensures
        bindings_known(program_facts(program)->Ok_0),
{
    let nodes = program_walk(effect_walk(), program);
    let facts = program_facts(program)->Ok_0;
    lemma_program_walk(effect_walk(), program);
    assert forall|i: int|
        0 <= i < facts.bindings.len() && (#[trigger] facts.bindings[i]).value is FuncLit implies
        facts.functions.contains(&facts.bindings[i].value) by {
        let k = lemma_binding_noted(program, nodes, i);
        law_first_child_follows(effect_walk(), item_visits(program), k);
        lemma_function_noted(program, nodes, k + 1);
    }
}

} // verus!
