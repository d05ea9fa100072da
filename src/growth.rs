use vstd::prelude::*;

use crate::depth::{document_depth_of, nest_depth};
use crate::document::{
    first_equal, first_fragment, first_named, has_name, lemma_first_equal, lemma_first_fragment,
    lemma_first_named, root_type_name_of, selected_operation, Document, SelectionNode,
};
use crate::error::AnalysisError;
use crate::operation_cost::{document_cost_of, nest_cost};

verus! {

/// The characters of an optional string.
pub open spec fn opt_view(o: Option<String>) -> Option<Seq<char>> {
    match o {
        Some(s) => Some(s@),
        None => None,
    }
}

/// Whether the selection set `new` is `old` with selections added: the
/// selections of `old`, each grown itself, stand in `new` in the same order,
/// and further selections may stand anywhere between or around them.
pub open spec fn set_grows(old: Seq<SelectionNode>, new: Seq<SelectionNode>) -> bool
    decreases new,
{
    if new.len() == 0 {
        old.len() == 0
    } else {
        ||| (old.len() > 0 && set_grows(old.drop_last(), new.drop_last()) && node_grows(old.last(), new.last()))
        ||| set_grows(old, new.drop_last())
    }
}

/// Whether `new` is the selection `old` with selections added below it.
pub open spec fn node_grows(old: SelectionNode, new: SelectionNode) -> bool
    decreases new,
{
    match new {
        SelectionNode::Field { name: n2, ty: t2, selections: s2 } => match old {
            SelectionNode::Field { name: n1, ty: t1, selections: s1 } => n1@ == n2@ && opt_view(t1) == opt_view(t2)
                && set_grows(s1@, s2@),
            _ => false,
        },
        SelectionNode::FragmentSpread { name: n2 } => match old {
            SelectionNode::FragmentSpread { name: n1 } => n1@ == n2@,
            _ => false,
        },
        SelectionNode::InlineFragment { type_condition: c2, selections: s2 } => match old {
            SelectionNode::InlineFragment { type_condition: c1, selections: s1 } => opt_view(c1) == opt_view(c2)
                && set_grows(s1@, s2@),
            _ => false,
        },
    }
}

/// Whether two documents agree in all but their selection sets: operations
/// of the same names and kinds, fragments of the same names and type
/// conditions, and the same object types, all in the same order.
pub open spec fn same_frame(old: Document, new: Document) -> bool {
    &&& old.operations@.len() == new.operations@.len()
    &&& forall|i: int| 0 <= i < old.operations@.len() ==> {
        &&& opt_view((#[trigger] old.operations@[i]).name) == opt_view(new.operations@[i].name)
        &&& old.operations@[i].kind == new.operations@[i].kind
    }
    &&& same_fragment_names(old, new)
    &&& forall|k: int| 0 <= k < old.fragments@.len() ==> (#[trigger] old.fragments@[k]).type_condition@ == new.fragments@[k].type_condition@
    &&& old.object_types@.len() == new.object_types@.len()
    &&& forall|j: int| 0 <= j < old.object_types@.len() ==> (#[trigger] old.object_types@[j])@ == new.object_types@[j]@
}

/// Whether `new` is the document `old` with selections added to the
/// selection sets of its operations and fragments, all else alike.
pub open spec fn docs_grow(old: Document, new: Document) -> bool {
    &&& same_frame(old, new)
    &&& forall|i: int| 0 <= i < old.operations@.len() ==> set_grows(
        (#[trigger] old.operations@[i]).selections@,
        new.operations@[i].selections@,
    )
    &&& forall|k: int| 0 <= k < old.fragments@.len() ==> set_grows(
        (#[trigger] old.fragments@[k]).selections@,
        new.fragments@[k].selections@,
    )
}

/// Whether two documents hold fragments of the same names in the same order.
pub open spec fn same_fragment_names(old: Document, new: Document) -> bool {
    &&& old.fragments@.len() == new.fragments@.len()
    &&& forall|k: int| 0 <= k < old.fragments@.len() ==> (#[trigger] old.fragments@[k]).name@ == new.fragments@[k].name@
}

/// Documents whose fragments carry the same names resolve a spread alike.
pub proof fn lemma_same_fragment(old: Document, new: Document, n: Seq<char>)
    requires
        same_fragment_names(old, new),
    ensures
        first_fragment(old.fragments@, n) == first_fragment(new.fragments@, n),
{
    lemma_first_fragment(old.fragments@, n);
    lemma_first_fragment(new.fragments@, n);
    match first_fragment(old.fragments@, n) {
        Some(i) => {
            assert(old.fragments@[i].name@ == new.fragments@[i].name@);
            match first_fragment(new.fragments@, n) {
                Some(j) => {
                    assert(old.fragments@[j].name@ == new.fragments@[j].name@);
                },
                None => {},
            }
        },
        None => {
            match first_fragment(new.fragments@, n) {
                Some(j) => {
                    assert(old.fragments@[j].name@ == new.fragments@[j].name@);
                },
                None => {},
            }
        },
    }
}

/// Documents of the same frame select the same operation.
pub proof fn lemma_same_operation(old: Document, new: Document, name: Option<Seq<char>>)
    requires
        same_frame(old, new),
    ensures
        selected_operation(old, name) == selected_operation(new, name),
{
    if let Some(n) = name {
        lemma_first_named(old.operations@, n);
        lemma_first_named(new.operations@, n);
        match first_named(old.operations@, n) {
            Some(i) => {
                assert(opt_view(old.operations@[i].name) == opt_view(new.operations@[i].name));
                assert(has_name(new.operations@[i], n));
                match first_named(new.operations@, n) {
                    Some(j) => {
                        assert(opt_view(old.operations@[j].name) == opt_view(new.operations@[j].name));
                    },
                    None => {},
                }
            },
            None => {
                match first_named(new.operations@, n) {
                    Some(j) => {
                        assert(opt_view(old.operations@[j].name) == opt_view(new.operations@[j].name));
                        assert(has_name(old.operations@[j], n));
                    },
                    None => {},
                }
            },
        }
    }
}

/// Documents of the same frame hold a root type of a name alike.
pub proof fn lemma_same_root(old: Document, new: Document, n: Seq<char>)
    requires
        same_frame(old, new),
    ensures
        first_equal(old.object_types@, n) is Some <==> first_equal(new.object_types@, n) is Some,
{
    lemma_first_equal(old.object_types@, n);
    lemma_first_equal(new.object_types@, n);
    match first_equal(old.object_types@, n) {
        Some(i) => {
            assert(old.object_types@[i]@ == new.object_types@[i]@);
        },
        None => {
            match first_equal(new.object_types@, n) {
                Some(j) => {
                    assert(old.object_types@[j]@ == new.object_types@[j]@);
                },
                None => {},
            }
        },
    }
}

/// Adding selections never lowers the depth of a selection tree: where the
/// grown tree has a depth, the original has one too, no larger.
pub proof fn lemma_depth_monotone(
    old: Document,
    new: Document,
    s1: Seq<SelectionNode>,
    s2: Seq<SelectionNode>,
    d: nat,
    budget: nat,
)
    requires
        docs_grow(old, new),
        set_grows(s1, s2),
    ensures
        nest_depth(new, s2, d, budget) matches Ok(n2) ==> nest_depth(old, s1, d, budget) matches Ok(n1) && n1 <= n2,
    decreases budget, s2,
{
    if s2.len() == 0 {
    } else if !(s1.len() > 0 && set_grows(s1.drop_last(), s2.drop_last()) && node_grows(s1.last(), s2.last())) {
        lemma_depth_monotone(old, new, s1, s2.drop_last(), d, budget);
    } else {
        lemma_depth_monotone(old, new, s1.drop_last(), s2.drop_last(), d, budget);
        let x = s1.last();
        let y = s2.last();
        assert(node_grows(x, y));
        match y {
            SelectionNode::Field { selections: c2, .. } => {
                if let SelectionNode::Field { selections: c1, .. } = x {
                    if d < usize::MAX {
                        lemma_depth_monotone(old, new, c1@, c2@, d + 1, budget);
                    }
                }
            },
            SelectionNode::InlineFragment { selections: c2, .. } => {
                if let SelectionNode::InlineFragment { selections: c1, .. } = x {
                    if d < usize::MAX {
                        lemma_depth_monotone(old, new, c1@, c2@, d + 1, budget);
                    }
                }
            },
            SelectionNode::FragmentSpread { name } => {
                lemma_same_fragment(old, new, name@);
                lemma_first_fragment(new.fragments@, name@);
                match first_fragment(new.fragments@, name@) {
                    Some(k) => {
                        assert(set_grows(old.fragments@[k].selections@, new.fragments@[k].selections@));
                        if budget > 0 && d < usize::MAX {
                            lemma_depth_monotone(
                                old,
                                new,
                                old.fragments@[k].selections@,
                                new.fragments@[k].selections@,
                                d + 1,
                                (budget - 1) as nat,
                            );
                        }
                    },
                    None => {},
                }
            },
        }
    }
}

/// Adding selections never lowers the cost of a selection tree: where the
/// grown tree has a cost, the original has one too, no larger.
pub proof fn lemma_cost_monotone(
    old: Document,
    new: Document,
    map: Map<Seq<char>, usize>,
    s1: Seq<SelectionNode>,
    s2: Seq<SelectionNode>,
    parent: Seq<char>,
    budget: nat,
)
    requires
        docs_grow(old, new),
        set_grows(s1, s2),
    ensures
        nest_cost(new, map, s2, parent, budget) matches Ok(n2) ==> nest_cost(old, map, s1, parent, budget) matches Ok(n1) && n1 <= n2,
    decreases budget, s2,
{
    if s2.len() == 0 {
    } else if !(s1.len() > 0 && set_grows(s1.drop_last(), s2.drop_last()) && node_grows(s1.last(), s2.last())) {
        lemma_cost_monotone(old, new, map, s1, s2.drop_last(), parent, budget);
    } else {
        lemma_cost_monotone(old, new, map, s1.drop_last(), s2.drop_last(), parent, budget);
        let x = s1.last();
        let y = s2.last();
        assert(node_grows(x, y));
        match y {
            SelectionNode::Field { selections: c2, ty: t2, .. } => {
                if let SelectionNode::Field { selections: c1, ty: t1, .. } = x {
                    if let Some(t) = t2 {
                        assert(t1 is Some && t1->0@ == t@);
                        lemma_cost_monotone(old, new, map, c1@, c2@, t@, budget);
                    }
                }
            },
            SelectionNode::InlineFragment { selections: c2, type_condition: tc2 } => {
                if let SelectionNode::InlineFragment { selections: c1, type_condition: tc1 } = x {
                    match tc2 {
                        Some(t) => {
                            assert(tc1 is Some && tc1->0@ == t@);
                            lemma_cost_monotone(old, new, map, c1@, c2@, t@, budget);
                        },
                        None => {
                            lemma_cost_monotone(old, new, map, c1@, c2@, parent, budget);
                        },
                    }
                }
            },
            SelectionNode::FragmentSpread { name } => {
                lemma_same_fragment(old, new, name@);
                lemma_first_fragment(new.fragments@, name@);
                match first_fragment(new.fragments@, name@) {
                    Some(k) => {
                        assert(set_grows(old.fragments@[k].selections@, new.fragments@[k].selections@));
                        if budget > 0 {
                            lemma_cost_monotone(
                                old,
                                new,
                                map,
                                old.fragments@[k].selections@,
                                new.fragments@[k].selections@,
                                new.fragments@[k].type_condition@,
                                (budget - 1) as nat,
                            );
                        }
                    },
                    None => {},
                }
            },
        }
    }
}

/// Adding a selection (a field, a fragment spread or an inline fragment) to
/// any selection set of a document, in an operation or in a fragment, never
/// lowers the depth or the cost of the operation a request selects: where
/// the grown document yields a value, the original yields one no larger, so
/// where both yield one, the grown one is at least as large. (The grown
/// document may fail where the original does not: an added spread may name
/// no fragment or close a cycle, and an added weight may overflow.)
pub proof fn lemma_document_monotone(old: Document, new: Document, map: Map<Seq<char>, usize>, name: Option<Seq<char>>)
    requires
        docs_grow(old, new),
    ensures
        document_depth_of(new, name) matches Ok(n2) ==> document_depth_of(old, name) matches Ok(n1) && n1 <= n2,
        document_cost_of(new, map, name) matches Ok(n2) ==> document_cost_of(old, map, name) matches Ok(n1) && n1 <= n2,
        document_depth_of(old, name) is Ok && document_depth_of(new, name) is Ok
            ==> document_depth_of(old, name)->Ok_0 <= document_depth_of(new, name)->Ok_0,
        document_cost_of(old, map, name) is Ok && document_cost_of(new, map, name) is Ok
            ==> document_cost_of(old, map, name)->Ok_0 <= document_cost_of(new, map, name)->Ok_0,
{
    lemma_same_operation(old, new, name);
    if let Some(n) = name {
        lemma_first_named(new.operations@, n);
    }
    match selected_operation(new, name) {
        Some(i) => {
            let (a, b) = (old.operations@[i], new.operations@[i]);
            assert(set_grows(a.selections@, b.selections@));
            lemma_depth_monotone(old, new, a.selections@, b.selections@, 0, old.fragments@.len());
            lemma_same_root(old, new, root_type_name_of(b.kind));
            lemma_cost_monotone(old, new, map, a.selections@, b.selections@, root_type_name_of(b.kind), old.fragments@.len());
        },
        None => {},
    }
}

} // verus!
