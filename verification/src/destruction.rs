//! How the value of each type is torn down.

use crate::model::{DestroyNode, DestroyPlan};
use crate::structs::{
    StructTable, lemma_defs_finite, lemma_mark_shrinks, lemma_names_push, names_of, stack_contains,
};
use crate::types::{
    AliasResult, ErrorView, Span, Ty, TyView, broken_at, broken_invariant, fault_of, ty_views,
};
use vstd::prelude::*;

verus! {

/// The mathematical value of one node of a plan.
pub enum DestroyView {
    Inline,
    String,
    Iterator,
    Closure,
    Struct { name: Seq<char>, fields: Seq<int> },
    Array { element: int },
    Result { ok: int, err: int },
}

pub open spec fn indices(list: Seq<usize>) -> Seq<int> {
    list.map_values(|i: usize| i as int)
}

impl View for DestroyNode {
    type V = DestroyView;

    open spec fn view(&self) -> DestroyView {
        match *self {
            DestroyNode::Inline => DestroyView::Inline,
            DestroyNode::String => DestroyView::String,
            DestroyNode::Iterator => DestroyView::Iterator,
            DestroyNode::Closure => DestroyView::Closure,
            DestroyNode::Struct { name, fields } => DestroyView::Struct {
                name: name@,
                fields: indices(fields@),
            },
            DestroyNode::Array { element } => DestroyView::Array { element: element as int },
            DestroyNode::Result { ok, err } => DestroyView::Result {
                ok: ok as int,
                err: err as int,
            },
        }
    }
}

impl View for DestroyPlan {
    type V = Seq<DestroyView>;

    open spec fn view(&self) -> Seq<DestroyView> {
        self.nodes@.map_values(|node: DestroyNode| node@)
    }
}

pub open spec fn nodes_view(nodes: Seq<DestroyNode>) -> Seq<DestroyView> {
    nodes.map_values(|node: DestroyNode| node@)
}

/// The indices from `start` on, one for each of `count` children.
pub open spec fn run(start: int, count: nat) -> Seq<int> {
    Seq::new(count, |i: int| start + i)
}

pub open spec fn room(count: nat) -> Seq<DestroyView> {
    Seq::new(count, |i: int| DestroyView::Inline)
}

pub open spec fn not_destructible(span: Span) -> ErrorView {
    broken_at(span, "destruction 缺少完整的可销毁类型"@)
}

/// The plan so far with the node at `index` filled for a type. Room for the children of an
/// aggregate is taken at the end of the list, and the children are filled first to last. An
/// iterator owns only its cursor; a function owns its closure.
pub open spec fn fill(
    nodes: Seq<DestroyView>,
    index: int,
    ty: TyView,
    span: Span,
    table: Map<Seq<char>, Seq<TyView>>,
    visiting: Set<Seq<char>>,
) -> Result<Seq<DestroyView>, ErrorView>
    decreases table.dom().difference(visiting).len(), ty,
    when table.dom().finite()
{
    let start = nodes.len() as int;
    match ty {
        TyView::Int(_) => Ok(nodes.update(index, DestroyView::Inline)),
        TyView::UInt(_) => Ok(nodes.update(index, DestroyView::Inline)),
        TyView::Float(_) => Ok(nodes.update(index, DestroyView::Inline)),
        TyView::Bool => Ok(nodes.update(index, DestroyView::Inline)),
        TyView::Str => Ok(nodes.update(index, DestroyView::String)),
        TyView::Iterator(_) => Ok(nodes.update(index, DestroyView::Iterator)),
        TyView::Func { .. } => Ok(nodes.update(index, DestroyView::Closure)),
        TyView::Struct(name) => if visiting.contains(name) || !table.contains_key(name) {
            Err(not_destructible(span))
        } else {
            proof {
                lemma_mark_shrinks(table, visiting, name);
            }
            let count = table[name].len();
            fill_fields(
                (nodes + room(count)).update(
                    index,
                    DestroyView::Struct { name, fields: run(start, count) },
                ),
                start,
                table[name],
                span,
                table,
                visiting.insert(name),
            )
        },
        TyView::Array(elem) => fill(
            nodes.push(DestroyView::Inline).update(index, DestroyView::Array { element: start }),
            start,
            *elem,
            span,
            table,
            visiting,
        ),
        TyView::Result(ok, err) => match fill(
            (nodes + room(2)).update(index, DestroyView::Result { ok: start, err: start + 1 }),
            start,
            *ok,
            span,
            table,
            visiting,
        ) {
            Err(error) => Err(error),
            Ok(filled) => fill(filled, start + 1, *err, span, table, visiting),
        },
        _ => Err(not_destructible(span)),
    }
}

/// The plan so far with the nodes from `start` on filled for a list of types.
pub open spec fn fill_fields(
    nodes: Seq<DestroyView>,
    start: int,
    types: Seq<TyView>,
    span: Span,
    table: Map<Seq<char>, Seq<TyView>>,
    visiting: Set<Seq<char>>,
) -> Result<Seq<DestroyView>, ErrorView>
    decreases table.dom().difference(visiting).len(), types,
    when table.dom().finite()
{
    if types.len() == 0 {
        Ok(nodes)
    } else {
        match fill_fields(nodes, start, types.drop_last(), span, table, visiting) {
            Err(error) => Err(error),
            Ok(filled) => fill(
                filled,
                start + types.len() - 1,
                types.last(),
                span,
                table,
                visiting,
            ),
        }
    }
}

/// The plan for tearing down a value of a type.
pub open spec fn plan_of(
    ty: TyView,
    span: Span,
    table: Map<Seq<char>, Seq<TyView>>,
) -> Result<Seq<DestroyView>, ErrorView> {
    fill(seq![DestroyView::Inline], 0, ty, span, table, Set::empty())
}

/// A failure among the first fields is the failure of the whole list.
proof fn lemma_fields_fail(
    nodes: Seq<DestroyView>,
    start: int,
    types: Seq<TyView>,
    n: int,
    span: Span,
    table: Map<Seq<char>, Seq<TyView>>,
    visiting: Set<Seq<char>>,
    error: ErrorView,
)
    requires
        table.dom().finite(),
        0 <= n <= types.len(),
        fill_fields(nodes, start, types.subrange(0, n), span, table, visiting) == Err::<
            Seq<DestroyView>,
            ErrorView,
        >(error),
    ensures
        fill_fields(nodes, start, types, span, table, visiting) == Err::<
            Seq<DestroyView>,
            ErrorView,
        >(error),
    decreases types.len() - n,
{
    if n == types.len() {
        assert(types.subrange(0, n) =~= types);
    } else {
        let longer = types.subrange(0, n + 1);
        assert(longer.drop_last() =~= types.subrange(0, n));
        lemma_fields_fail(nodes, start, types, n + 1, span, table, visiting, error);
    }
}

fn set_node(nodes: &mut Vec<DestroyNode>, index: usize, node: DestroyNode)
    requires
        index < old(nodes).len(),
    ensures
        nodes_view(final(nodes)@) == nodes_view(old(nodes)@).update(index as int, node@),
        final(nodes)@.len() == old(nodes)@.len(),
{
    nodes.set(index, node);
    assert(nodes_view(nodes@) =~= nodes_view(old(nodes)@).update(index as int, node@));
}

fn add_room(nodes: &mut Vec<DestroyNode>, count: usize) -> (r: Vec<usize>)
    ensures
        nodes_view(final(nodes)@) == nodes_view(old(nodes)@) + room(count as nat),
        final(nodes)@.len() == old(nodes)@.len() + count,
        r@.len() == count,
        indices(r@) == run(old(nodes)@.len() as int, count as nat),
{
    let mut list: Vec<usize> = Vec::new();
    let mut i: usize = 0;
    while i < count
        invariant
            i <= count,
            nodes@.len() == old(nodes)@.len() + i,
            list@.len() == i,
            forall|k: int| 0 <= k < i ==> #[trigger] list@[k] == old(nodes)@.len() + k,
            forall|k: int| 0 <= k < old(nodes)@.len() ==> #[trigger] nodes@[k] == old(nodes)@[k],
            forall|k: int| old(nodes)@.len() <= k < nodes@.len() ==> #[trigger] nodes@[k] is Inline,
        decreases count - i,
    {
        list.push(nodes.len());
        nodes.push(DestroyNode::Inline);
        i += 1;
    }
    assert(indices(list@) =~= run(old(nodes)@.len() as int, count as nat));
    assert(nodes_view(nodes@) =~= nodes_view(old(nodes)@) + room(count as nat));
    list
}

fn fill_node(
    nodes: &mut Vec<DestroyNode>,
    index: usize,
    ty: &Ty,
    span: Span,
    structs: &StructTable,
    visiting: &mut Vec<String>,
) -> (r: AliasResult<()>)
    requires
        index < old(nodes).len(),
    ensures
        match fill(
            nodes_view(old(nodes)@),
            index as int,
            ty@,
            span,
            structs@,
            names_of(old(visiting)@),
        ) {
            Ok(filled) => r is Ok && nodes_view(final(nodes)@) == filled && final(visiting)@
                == old(visiting)@ && final(nodes).len() >= old(nodes).len(),
            Err(error) => fault_of(r) == Some(error),
        },
    decreases structs@.dom().difference(names_of(old(visiting)@)).len(), ty,
{
    proof {
        lemma_defs_finite(structs.defs@);
    }
    match ty {
        Ty::Int(_) | Ty::UInt(_) | Ty::Float(_) | Ty::Bool => {
            set_node(nodes, index, DestroyNode::Inline);
            Ok(())
        },
        Ty::Str => {
            set_node(nodes, index, DestroyNode::String);
            Ok(())
        },
        Ty::Iterator(_) => {
            set_node(nodes, index, DestroyNode::Iterator);
            Ok(())
        },
        Ty::Func { .. } => {
            set_node(nodes, index, DestroyNode::Closure);
            Ok(())
        },
        Ty::Struct(name) => {
            if stack_contains(visiting, name) {
                return Err(broken_invariant(span, "destruction 缺少完整的可销毁类型"));
            }
            let types = match structs.get(name) {
                Some(types) => types,
                None => {
                    return Err(broken_invariant(span, "destruction 缺少完整的可销毁类型"));
                },
            };
            let ghost outer = visiting@;
            proof {
                lemma_names_push(outer, *name);
                lemma_mark_shrinks(structs@, names_of(outer), name@);
            }
            visiting.push(name.clone());
            let ghost inner = visiting@;
            let ghost marked = names_of(inner);
            let ghost start = nodes@.len() as int;
            let fields = add_room(nodes, types.len());
            let mut children: Vec<usize> = Vec::new();
            let mut c: usize = 0;
            while c < fields.len()
                invariant
                    c <= fields.len(),
                    children@ == fields@.subrange(0, c as int),
                decreases fields.len() - c,
            {
                children.push(fields[c]);
                c += 1;
            }
            assert(children@ =~= fields@);
            set_node(nodes, index, DestroyNode::Struct { name: name.clone(), fields });
            let ghost base = nodes_view(nodes@);
            let ghost views = ty_views(types@);
            let ghost made = fill(
                nodes_view(old(nodes)@),
                index as int,
                ty@,
                span,
                structs@,
                names_of(outer),
            );
            assert(made == fill_fields(base, start, views, span, structs@, marked));
            let mut i: usize = 0;
            assert(views.subrange(0, 0) =~= Seq::<TyView>::empty());
            while i < types.len()
                invariant
                    i <= types.len(),
                    views == ty_views(types@),
                    structs@.dom().finite(),
                    visiting@ == inner,
                    outer == old(visiting)@,
                    inner == outer.push(*name),
                    marked == names_of(inner),
                    structs@.dom().difference(marked).len() < structs@.dom().difference(
                        names_of(outer),
                    ).len(),
                    made == fill(
                        nodes_view(old(nodes)@),
                        index as int,
                        ty@,
                        span,
                        structs@,
                        names_of(old(visiting)@),
                    ),
                    made == fill_fields(base, start, views, span, structs@, marked),
                    start == old(nodes)@.len(),
                    base.len() == start + types@.len(),
                    children.len() == types.len(),
                    indices(children@) == run(start, types@.len()),
                    nodes.len() >= base.len(),
                    fill_fields(
                        base,
                        start,
                        views.subrange(0, i as int),
                        span,
                        structs@,
                        marked,
                    ) == Ok::<Seq<DestroyView>, ErrorView>(nodes_view(nodes@)),
                decreases types.len() - i,
            {
                proof {
                    let prefix = views.subrange(0, i + 1);
                    assert(prefix.drop_last() =~= views.subrange(0, i as int));
                    assert(prefix.last() == types@[i as int]@);
                    assert(indices(children@)[i as int] == start + i);
                }
                match fill_node(nodes, children[i], &types[i], span, structs, visiting) {
                    Ok(_) => {},
                    Err(error) => {
                        proof {
                            lemma_fields_fail(
                                base,
                                start,
                                views,
                                i + 1,
                                span,
                                structs@,
                                marked,
                                error@,
                            );
                        }
                        return Err(error);
                    },
                }
                i += 1;
            }
            assert(views.subrange(0, i as int) =~= views);
            let _ = visiting.pop();
            assert(visiting@ =~= outer);
            Ok(())
        },
        Ty::Array(elem) => {
            let element: usize = nodes.len();
            nodes.push(DestroyNode::Inline);
            assert(nodes_view(nodes@) =~= nodes_view(old(nodes)@).push(DestroyView::Inline));
            set_node(nodes, index, DestroyNode::Array { element });
            fill_node(nodes, element, elem, span, structs, visiting)
        },
        Ty::Result(ok, err) => {
            let list = add_room(nodes, 2);
            assert(indices(list@)[0] == old(nodes)@.len());
            assert(indices(list@)[1] == old(nodes)@.len() + 1);
            set_node(nodes, index, DestroyNode::Result { ok: list[0], err: list[1] });
            match fill_node(nodes, list[0], ok, span, structs, visiting) {
                Ok(_) => {},
                Err(error) => {
                    return Err(error);
                },
            }
            fill_node(nodes, list[1], err, span, structs, visiting)
        },
        Ty::Unit | Ty::Unknown | Ty::FuncPoly | Ty::Ptr { .. } => Err(
            broken_invariant(span, "destruction 缺少完整的可销毁类型"),
        ),
    }
}

/// Makes the plan for tearing down a value of a type.
pub fn plan(ty: &Ty, span: Span, structs: &StructTable) -> (r: AliasResult<DestroyPlan>)
    ensures
        match plan_of(ty@, span, structs@) {
            Ok(nodes) => r is Ok && r.unwrap()@ == nodes,
            Err(error) => fault_of(r) == Some(error),
        },
{
    let mut nodes: Vec<DestroyNode> = Vec::new();
    nodes.push(DestroyNode::Inline);
    assert(nodes_view(nodes@) =~= seq![DestroyView::Inline]);
    let mut visiting: Vec<String> = Vec::new();
    assert(names_of(visiting@) =~= Set::empty());
    match fill_node(&mut nodes, 0, ty, span, structs, &mut visiting) {
        Ok(_) => Ok(DestroyPlan { nodes }),
        Err(error) => Err(error),
    }
}

/// The nodes that a node refers to.
pub open spec fn children(node: DestroyView) -> Seq<int> {
    match node {
        DestroyView::Struct { fields, .. } => fields,
        DestroyView::Array { element } => seq![element],
        DestroyView::Result { ok, err } => seq![ok, err],
        _ => Seq::empty(),
    }
}

/// Every node refers to later nodes of the list only.
pub open spec fn refers_forward(nodes: Seq<DestroyView>) -> bool {
    forall|i: int, c: int|
        0 <= i < nodes.len() && 0 <= c < children(nodes[i]).len() ==> i < #[trigger] children(
            nodes[i],
        )[c] < nodes.len()
}

proof fn lemma_fill_refers_forward(
    nodes: Seq<DestroyView>,
    index: int,
    ty: TyView,
    span: Span,
    table: Map<Seq<char>, Seq<TyView>>,
    visiting: Set<Seq<char>>,
)
    requires
        table.dom().finite(),
        0 <= index < nodes.len(),
        refers_forward(nodes),
        fill(nodes, index, ty, span, table, visiting) is Ok,
    ensures
        refers_forward(fill(nodes, index, ty, span, table, visiting)->Ok_0),
        fill(nodes, index, ty, span, table, visiting)->Ok_0.len() >= nodes.len(),
    decreases table.dom().difference(visiting).len(), ty,
{
    let start = nodes.len() as int;
    match ty {
        TyView::Struct(name) => {
            lemma_mark_shrinks(table, visiting, name);
            let count = table[name].len();
            let made = (nodes + room(count)).update(
                index,
                DestroyView::Struct { name, fields: run(start, count) },
            );
            assert(refers_forward(made));
            lemma_fields_refer_forward(
                made,
                start,
                table[name],
                span,
                table,
                visiting.insert(name),
            );
        },
        TyView::Array(elem) => {
            let made = nodes.push(DestroyView::Inline).update(
                index,
                DestroyView::Array { element: start },
            );
            assert(refers_forward(made));
            lemma_fill_refers_forward(made, start, *elem, span, table, visiting);
        },
        TyView::Result(ok, err) => {
            let made = (nodes + room(2)).update(
                index,
                DestroyView::Result { ok: start, err: start + 1 },
            );
            assert(refers_forward(made));
            lemma_fill_refers_forward(made, start, *ok, span, table, visiting);
            let filled = fill(made, start, *ok, span, table, visiting)->Ok_0;
            lemma_fill_refers_forward(filled, start + 1, *err, span, table, visiting);
        },
        _ => {},
    }
}

proof fn lemma_fields_refer_forward(
    nodes: Seq<DestroyView>,
    start: int,
    types: Seq<TyView>,
    span: Span,
    table: Map<Seq<char>, Seq<TyView>>,
    visiting: Set<Seq<char>>,
)
    requires
        table.dom().finite(),
        0 <= start,
        start + types.len() <= nodes.len(),
        refers_forward(nodes),
        fill_fields(nodes, start, types, span, table, visiting) is Ok,
    ensures
        refers_forward(fill_fields(nodes, start, types, span, table, visiting)->Ok_0),
        fill_fields(nodes, start, types, span, table, visiting)->Ok_0.len() >= nodes.len(),
    decreases table.dom().difference(visiting).len(), types,
{
    if types.len() > 0 {
        lemma_fields_refer_forward(nodes, start, types.drop_last(), span, table, visiting);
        let filled = fill_fields(nodes, start, types.drop_last(), span, table, visiting)->Ok_0;
        lemma_fill_refers_forward(
            filled,
            start + types.len() - 1,
            types.last(),
            span,
            table,
            visiting,
        );
    }
}

/// A plan has a root, and its nodes refer to later nodes only: following the children of a
/// plan always ends.
pub proof fn law_plan_refers_forward(
    ty: TyView,
    span: Span,
    table: Map<Seq<char>, Seq<TyView>>,
)
    requires
        table.dom().finite(),
        plan_of(ty, span, table) is Ok,
    ensures
        plan_of(ty, span, table)->Ok_0.len() > 0,
        refers_forward(plan_of(ty, span, table)->Ok_0),
{
    lemma_fill_refers_forward(seq![DestroyView::Inline], 0, ty, span, table, Set::empty());
}

impl DestroyNode {
    /// Whether two nodes are the same.
    pub fn same(&self, other: &DestroyNode) -> (r: bool)
        ensures
            r == (self@ == other@),
    {
        match (self, other) {
            (DestroyNode::Inline, DestroyNode::Inline) => true,
            (DestroyNode::String, DestroyNode::String) => true,
            (DestroyNode::Iterator, DestroyNode::Iterator) => true,
            (DestroyNode::Closure, DestroyNode::Closure) => true,
            (DestroyNode::Array { element: a }, DestroyNode::Array { element: b }) => *a == *b,
            (
                DestroyNode::Result { ok: a, err: e },
                DestroyNode::Result { ok: b, err: f },
            ) => *a == *b && *e == *f,
            (
                DestroyNode::Struct { name: a, fields: p },
                DestroyNode::Struct { name: b, fields: q },
            ) => {
                if p.len() != q.len() {
                    assert(self@->fields.len() != other@->fields.len());
                    return false;
                }
                let mut i: usize = 0;
                while i < p.len()
                    invariant
                        i <= p.len(),
                        p.len() == q.len(),
                        self@->fields == indices(p@),
                        other@->fields == indices(q@),
                        self@ is Struct,
                        other@ is Struct,
                        forall|k: int| 0 <= k < i ==> p@[k] == q@[k],
                    decreases p.len() - i,
                {
                    if p[i] != q[i] {
                        assert(self@->fields[i as int] != other@->fields[i as int]);
                        return false;
                    }
                    i += 1;
                }
                assert(self@->fields =~= other@->fields);
                *a == *b
            },
            _ => false,
        }
    }
}

impl DestroyPlan {
    /// Whether two plans are the same.
    pub fn same(&self, other: &DestroyPlan) -> (r: bool)
        ensures
            r == (self@ == other@),
    {
        if self.nodes.len() != other.nodes.len() {
            assert(self@.len() != other@.len());
            return false;
        }
        let mut i: usize = 0;
        while i < self.nodes.len()
            invariant
                i <= self.nodes.len(),
                self.nodes.len() == other.nodes.len(),
                forall|k: int| 0 <= k < i ==> (#[trigger] self.nodes@[k])@ == other.nodes@[k]@,
            decreases self.nodes.len() - i,
        {
            if !self.nodes[i].same(&other.nodes[i]) {
                assert(self@[i as int] != other@[i as int]);
                return false;
            }
            i += 1;
        }
        assert(self@ =~= other@);
        true
    }
}

} // verus!
