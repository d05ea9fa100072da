use vstd::prelude::*;

use crate::depth::{document_depth_of, nest_depth};
use crate::document::{first_fragment, lemma_first_fragment, lemma_first_named, root_type_name_of, selected_operation, Document, SelectionNode};
use crate::error::AnalysisError;
use crate::growth::{lemma_same_fragment, lemma_same_operation, opt_view, same_frame};
use crate::operation_cost::{document_cost_of, is_introspection, nest_cost};

verus! {

/// Whether `s` is a field whose type is reserved for introspection.
pub open spec fn is_introspection_field(s: SelectionNode) -> bool {
    s matches SelectionNode::Field { ty: Some(t), .. } && is_introspection(t@)
}

/// Whether the selection set `new` is `old` with introspection fields
/// inserted anywhere, at any level below.
pub open spec fn set_adds_introspection(old: Seq<SelectionNode>, new: Seq<SelectionNode>) -> bool
    decreases new,
{
    if new.len() == 0 {
        old.len() == 0
    } else {
        ||| (old.len() > 0 && set_adds_introspection(old.drop_last(), new.drop_last())
            && node_adds_introspection(old.last(), new.last()))
        ||| (is_introspection_field(new.last()) && set_adds_introspection(old, new.drop_last()))
    }
}

/// Whether `new` is the selection `old` with introspection fields inserted
/// below it.
pub open spec fn node_adds_introspection(old: SelectionNode, new: SelectionNode) -> bool
    decreases new,
{
    match new {
        SelectionNode::Field { name: n2, ty: t2, selections: s2 } => match old {
            SelectionNode::Field { name: n1, ty: t1, selections: s1 } => n1@ == n2@ && opt_view(t1) == opt_view(t2)
                && set_adds_introspection(s1@, s2@),
            _ => false,
        },
        SelectionNode::FragmentSpread { name: n2 } => match old {
            SelectionNode::FragmentSpread { name: n1 } => n1@ == n2@,
            _ => false,
        },
        SelectionNode::InlineFragment { type_condition: c2, selections: s2 } => match old {
            SelectionNode::InlineFragment { type_condition: c1, selections: s1 } => opt_view(c1) == opt_view(c2)
                && set_adds_introspection(s1@, s2@),
            _ => false,
        },
    }
}

/// Whether `new` is the document `old` with introspection fields inserted
/// into the selection sets of its operations and fragments.
pub open spec fn docs_add_introspection(old: Document, new: Document) -> bool {
    &&& same_frame(old, new)
    &&& forall|i: int| 0 <= i < old.operations@.len() ==> set_adds_introspection(
        (#[trigger] old.operations@[i]).selections@,
        new.operations@[i].selections@,
    )
    &&& forall|k: int| 0 <= k < old.fragments@.len() ==> set_adds_introspection(
        (#[trigger] old.fragments@[k]).selections@,
        new.fragments@[k].selections@,
    )
}

/// Introspection fields inserted anywhere in a selection tree leave its
/// cost as it was, whatever the cost map holds for them or below them.
pub proof fn lemma_introspection_invisible_to_cost(
    old: Document,
    new: Document,
    map: Map<Seq<char>, usize>,
    s1: Seq<SelectionNode>,
    s2: Seq<SelectionNode>,
    parent: Seq<char>,
    budget: nat,
)
    requires
        docs_add_introspection(old, new),
        set_adds_introspection(s1, s2),
    ensures
        nest_cost(new, map, s2, parent, budget) == nest_cost(old, map, s1, parent, budget),
    decreases budget, s2,
{
    if s2.len() == 0 {
    } else if !(s1.len() > 0 && set_adds_introspection(s1.drop_last(), s2.drop_last())
        && node_adds_introspection(s1.last(), s2.last())) {
        lemma_introspection_invisible_to_cost(old, new, map, s1, s2.drop_last(), parent, budget);
    } else {
        lemma_introspection_invisible_to_cost(old, new, map, s1.drop_last(), s2.drop_last(), parent, budget);
        let x = s1.last();
        let y = s2.last();
        assert(node_adds_introspection(x, y));
        match y {
            SelectionNode::Field { selections: c2, ty: t2, .. } => {
                if let SelectionNode::Field { selections: c1, ty: t1, .. } = x {
                    if let Some(t) = t2 {
                        assert(t1 is Some && t1->0@ == t@);
                        lemma_introspection_invisible_to_cost(old, new, map, c1@, c2@, t@, budget);
                    }
                }
            },
            SelectionNode::InlineFragment { selections: c2, type_condition: tc2 } => {
                if let SelectionNode::InlineFragment { selections: c1, type_condition: tc1 } = x {
                    match tc2 {
                        Some(t) => {
                            assert(tc1 is Some && tc1->0@ == t@);
                            lemma_introspection_invisible_to_cost(old, new, map, c1@, c2@, t@, budget);
                        },
                        None => {
                            lemma_introspection_invisible_to_cost(old, new, map, c1@, c2@, parent, budget);
                        },
                    }
                }
            },
            SelectionNode::FragmentSpread { name } => {
                lemma_same_fragment(old, new, name@);
                lemma_first_fragment(new.fragments@, name@);
                match first_fragment(new.fragments@, name@) {
                    Some(k) => {
                        assert(set_adds_introspection(old.fragments@[k].selections@, new.fragments@[k].selections@));
                        assert(old.fragments@[k].type_condition@ == new.fragments@[k].type_condition@);
                        if budget > 0 {
                            lemma_introspection_invisible_to_cost(
                                old,
                                new,
                                map,
                                old.fragments@[k].selections@,
                                new.fragments@[k].selections@,
                                new.fragments@[k].type_condition@,
                                (budget - 1) as nat,
                            );
                        }
                    },
                    None => {},
                }
            },
        }
    }
}

/// Introspection fields, wherever they stand in a document, never change the
/// cost of the operation a request selects, whatever the cost map holds:
/// they are not counted and nothing below them is walked.
pub proof fn lemma_document_introspection_cost(old: Document, new: Document, map: Map<Seq<char>, usize>, name: Option<Seq<char>>)
    requires
        docs_add_introspection(old, new),
    ensures
        document_cost_of(new, map, name) == document_cost_of(old, map, name),
{
    lemma_same_operation(old, new, name);
    if let Some(n) = name {
        lemma_first_named(new.operations@, n);
    }
    match selected_operation(new, name) {
        Some(i) => {
            let (a, b) = (old.operations@[i], new.operations@[i]);
            assert(set_adds_introspection(a.selections@, b.selections@));
            crate::growth::lemma_same_root(old, new, root_type_name_of(b.kind));
            lemma_introspection_invisible_to_cost(old, new, map, a.selections@, b.selections@, root_type_name_of(b.kind), old.fragments@.len());
        },
        None => {},
    }
}

/// Whether two selection sets have the same shape: the same variants in the
/// same places, spreads of the same fragments, whatever the names and types
/// of fields and the type conditions of inline fragments.
pub open spec fn set_same_shape(a: Seq<SelectionNode>, b: Seq<SelectionNode>) -> bool
    decreases b,
{
    if b.len() == 0 {
        a.len() == 0
    } else {
        a.len() > 0 && set_same_shape(a.drop_last(), b.drop_last()) && node_same_shape(a.last(), b.last())
    }
}

/// Whether two selections have the same shape.
pub open spec fn node_same_shape(a: SelectionNode, b: SelectionNode) -> bool
    decreases b,
{
    match b {
        SelectionNode::Field { selections: s2, .. } => match a {
            SelectionNode::Field { selections: s1, .. } => set_same_shape(s1@, s2@),
            _ => false,
        },
        SelectionNode::FragmentSpread { name: n2 } => match a {
            SelectionNode::FragmentSpread { name: n1 } => n1@ == n2@,
            _ => false,
        },
        SelectionNode::InlineFragment { selections: s2, .. } => match a {
            SelectionNode::InlineFragment { selections: s1, .. } => set_same_shape(s1@, s2@),
            _ => false,
        },
    }
}

/// Whether two documents differ at most in the names and types of fields and
/// in the type conditions of inline fragments.
pub open spec fn docs_same_shape(a: Document, b: Document) -> bool {
    &&& same_frame(a, b)
    &&& forall|i: int| 0 <= i < a.operations@.len() ==> set_same_shape(
        (#[trigger] a.operations@[i]).selections@,
        b.operations@[i].selections@,
    )
    &&& forall|k: int| 0 <= k < a.fragments@.len() ==> set_same_shape(
        (#[trigger] a.fragments@[k]).selections@,
        b.fragments@[k].selections@,
    )
}

/// Depth reads the shape of a selection tree alone: renaming or retyping
/// fields, introspection fields among them, leaves it as it was.
pub proof fn lemma_depth_reads_shape(
    a: Document,
    b: Document,
    s1: Seq<SelectionNode>,
    s2: Seq<SelectionNode>,
    d: nat,
    budget: nat,
)
    requires
        docs_same_shape(a, b),
        set_same_shape(s1, s2),
    ensures
        nest_depth(b, s2, d, budget) == nest_depth(a, s1, d, budget),
    decreases budget, s2,
{
    if s2.len() > 0 {
        lemma_depth_reads_shape(a, b, s1.drop_last(), s2.drop_last(), d, budget);
        let x = s1.last();
        let y = s2.last();
        assert(node_same_shape(x, y));
        match y {
            SelectionNode::Field { selections: c2, .. } => {
                if let SelectionNode::Field { selections: c1, .. } = x {
                    if d < usize::MAX {
                        lemma_depth_reads_shape(a, b, c1@, c2@, d + 1, budget);
                    }
                }
            },
            SelectionNode::InlineFragment { selections: c2, .. } => {
                if let SelectionNode::InlineFragment { selections: c1, .. } = x {
                    if d < usize::MAX {
                        lemma_depth_reads_shape(a, b, c1@, c2@, d + 1, budget);
                    }
                }
            },
            SelectionNode::FragmentSpread { name } => {
                lemma_same_fragment(a, b, name@);
                lemma_first_fragment(b.fragments@, name@);
                match first_fragment(b.fragments@, name@) {
                    Some(k) => {
                        assert(set_same_shape(a.fragments@[k].selections@, b.fragments@[k].selections@));
                        if budget > 0 && d < usize::MAX {
                            lemma_depth_reads_shape(
                                a,
                                b,
                                a.fragments@[k].selections@,
                                b.fragments@[k].selections@,
                                d + 1,
                                (budget - 1) as nat,
                            );
                        }
                    },
                    None => {},
                }
            },
        }
    }
}

/// Fields are walked for depth whatever their names and types: two
/// documents of the same shape give the same depth for every request, so an
/// introspection field counts as any other field.
pub proof fn lemma_document_depth_reads_shape(a: Document, b: Document, name: Option<Seq<char>>)
    requires
        docs_same_shape(a, b),
    ensures
        document_depth_of(b, name) == document_depth_of(a, name),
{
    lemma_same_operation(a, b, name);
    if let Some(n) = name {
        lemma_first_named(b.operations@, n);
    }
    match selected_operation(b, name) {
        Some(i) => {
            assert(set_same_shape(a.operations@[i].selections@, b.operations@[i].selections@));
            lemma_depth_reads_shape(a, b, a.operations@[i].selections@, b.operations@[i].selections@, 0, a.fragments@.len());
        },
        None => {},
    }
}

} // verus!
