use vstd::prelude::*;
use vstd::string::StringExecFns;
use vstd::string::StrSliceExecFns;

use crate::cost::Cost;
use crate::cost_map::{weight_of, CostMap};
use crate::document::{
    first_equal, first_fragment, name_view, root_type_name_of, selected_operation, Document,
    Operation, SelectionNode,
};
use crate::error::AnalysisError;

verus! {

/// Whether a type name is reserved for introspection (starts with `__`).
pub open spec fn is_introspection(ty_name: Seq<char>) -> bool {
    ty_name.len() >= 2 && ty_name[0] == '_' && ty_name[1] == '_'
}

/// The coordinate `"<parent>.<field>"` under which a field's weight is kept.
pub open spec fn coordinate(parent: Seq<char>, field: Seq<char>) -> Seq<char> {
    parent + seq!['.'] + field
}

/// Sum of the weights of the fields of `sels`, whose enclosing type is
/// `parent`. A field counts the weight of its coordinate and then its own
/// selections, under its declared type; a field whose type is unknown or
/// reserved for introspection counts nothing, nor does anything below it.
/// A spread counts the fragment's selections under its type condition, and
/// fails on an unknown fragment; an inline fragment counts its selections
/// under its type condition, or under `parent` where it has none. `budget`
/// bounds nested spreads as for depth. Errors come in walk order.
pub open spec fn nest_cost(
    doc: Document,
    map: Map<Seq<char>, usize>,
    sels: Seq<SelectionNode>,
    parent: Seq<char>,
    budget: nat,
) -> Result<nat, AnalysisError>
    decreases budget, sels,
{
    if sels.len() == 0 {
        Ok(0)
    } else {
        match nest_cost(doc, map, sels.drop_last(), parent, budget) {
            Err(e) => Err(e),
            Ok(a) => {
                let here = match sels.last() {
                    SelectionNode::Field { name, ty, selections } => match ty {
                        None => Ok(0),
                        Some(t) => if is_introspection(t@) {
                            Ok(0)
                        } else {
                            match nest_cost(doc, map, selections@, t@, budget) {
                                Err(e) => Err(e),
                                Ok(c) => Ok(weight_of(map, coordinate(parent, name@)) + c),
                            }
                        },
                    },
                    SelectionNode::FragmentSpread { name } => match first_fragment(doc.fragments@, name@) {
                        None => Err(AnalysisError::UnknownFragment),
                        Some(k) => if budget == 0 {
                            Err(AnalysisError::FragmentCycle)
                        } else {
                            nest_cost(
                                doc,
                                map,
                                doc.fragments@[k].selections@,
                                doc.fragments@[k].type_condition@,
                                (budget - 1) as nat,
                            )
                        },
                    },
                    SelectionNode::InlineFragment { type_condition, selections } => {
                        let inner = match type_condition {
                            Some(t) => t@,
                            None => parent,
                        };
                        nest_cost(doc, map, selections@, inner, budget)
                    },
                };
                match here {
                    Err(e) => Err(e),
                    Ok(b) => Ok(a + b),
                }
            },
        }
    }
}

/// Cost of an operation: its selections under the root type of its kind,
/// with as many nested spreads allowed as the document has fragments.
pub open spec fn operation_cost_of(doc: Document, map: Map<Seq<char>, usize>, op: Operation) -> Result<nat, AnalysisError> {
    match first_equal(doc.object_types@, root_type_name_of(op.kind)) {
        None => Err(AnalysisError::MissingRootType),
        Some(_) => nest_cost(doc, map, op.selections@, root_type_name_of(op.kind), doc.fragments@.len()),
    }
}

/// Cost of the operation that a request names.
pub open spec fn document_cost_of(doc: Document, map: Map<Seq<char>, usize>, name: Option<Seq<char>>) -> Result<nat, AnalysisError> {
    match selected_operation(doc, name) {
        None => Err(AnalysisError::MissingOperation),
        Some(i) => operation_cost_of(doc, map, doc.operations@[i]),
    }
}

/// A sum as a machine word: `None` where it does not fit.
pub open spec fn tally(n: nat) -> Option<usize> {
    if n <= usize::MAX {
        Some(n as usize)
    } else {
        None
    }
}

/// A cost result as the public functions return it.
pub open spec fn cost_result(r: Result<nat, AnalysisError>) -> Result<Cost, AnalysisError> {
    match r {
        Ok(n) => if n <= usize::MAX {
            Ok(Cost(n as usize))
        } else {
            Err(AnalysisError::Overflow)
        },
        Err(e) => Err(e),
    }
}

fn add_tally(a: Option<usize>, b: Option<usize>) -> (r: Option<usize>)
    ensures
        forall|x: nat, y: nat| #![trigger tally(x), tally(y)] a == tally(x) && b == tally(y) ==> r == tally(x + y),
{
    match (a, b) {
        (Some(x), Some(y)) => x.checked_add(y),
        _ => None,
    }
}

/// Once a prefix of a selection set fails, the whole set fails the same way.
proof fn lemma_cost_error_persists(
    doc: Document,
    map: Map<Seq<char>, usize>,
    sels: Seq<SelectionNode>,
    j: int,
    parent: Seq<char>,
    budget: nat,
)
    requires
        0 <= j <= sels.len(),
        nest_cost(doc, map, sels.subrange(0, j), parent, budget) is Err,
    ensures
        nest_cost(doc, map, sels, parent, budget) == nest_cost(doc, map, sels.subrange(0, j), parent, budget),
    decreases sels.len() - j,
{
    if j < sels.len() {
        let next = sels.subrange(0, j + 1);
        assert(next.drop_last() =~= sels.subrange(0, j));
        lemma_cost_error_persists(doc, map, sels, j + 1, parent, budget);
    } else {
        assert(sels.subrange(0, j) =~= sels);
    }
}

fn introspection_type(ty_name: &str) -> (r: bool)
    ensures
        r == is_introspection(ty_name@),
{
    if ty_name.unicode_len() < 2 {
        false
    } else {
        ty_name.get_char(0) == '_' && ty_name.get_char(1) == '_'
    }
}

fn coordinate_of(parent: &str, field: &str) -> (r: String)
    ensures
        r@ == coordinate(parent@, field@),
{
    let mut coord = String::from_str(parent);
    proof { reveal_strlit("."); }
    coord.append(".");
    coord.append(field);
    coord
}

fn selection_cost(
    doc: &Document,
    cost_map: &CostMap,
    sel: &SelectionNode,
    parent: &str,
    budget: usize,
) -> (r: Result<Option<usize>, AnalysisError>)
    ensures
        match nest_cost(*doc, cost_map@, seq![*sel], parent@, budget as nat) {
            Ok(n) => r == Ok::<Option<usize>, AnalysisError>(tally(n)),
            Err(e) => r == Err::<Option<usize>, AnalysisError>(e),
        },
    decreases budget, sel,
{
    proof {
        let one = seq![*sel];
        assert(one.drop_last() =~= Seq::<SelectionNode>::empty());
        assert(one.last() == *sel);
        assert(nest_cost(*doc, cost_map@, Seq::<SelectionNode>::empty(), parent@, budget as nat) == Ok::<nat, AnalysisError>(0));
    }
    match sel {
        SelectionNode::Field { name, ty, selections } => {
            match ty {
                None => Ok(Some(0)),
                Some(t) => {
                    if introspection_type(t.as_str()) {
                        Ok(Some(0))
                    } else {
                        match walk_cost(doc, cost_map, selections, t.as_str(), budget) {
                            Err(e) => Err(e),
                            Ok(below) => {
                                let coord = coordinate_of(parent, name.as_str());
                                let w = cost_map.weight(&coord);
                                assert(Some(w) == tally(w as nat));
                                Ok(add_tally(Some(w), below))
                            },
                        }
                    }
                },
            }
        },
        SelectionNode::FragmentSpread { name } => {
            match doc.fragment_by_name(name) {
                None => Err(AnalysisError::UnknownFragment),
                Some(f) => {
                    if budget == 0 {
                        Err(AnalysisError::FragmentCycle)
                    } else {
                        walk_cost(doc, cost_map, &f.selections, f.type_condition.as_str(), budget - 1)
                    }
                },
            }
        },
        SelectionNode::InlineFragment { type_condition, selections } => {
            match type_condition {
                Some(t) => walk_cost(doc, cost_map, selections, t.as_str(), budget),
                None => walk_cost(doc, cost_map, selections, parent, budget),
            }
        },
    }
}

/// The cost of a set extended by one selection, from the costs of the two.
proof fn lemma_cost_push(
    doc: Document,
    map: Map<Seq<char>, usize>,
    sels: Seq<SelectionNode>,
    s: SelectionNode,
    parent: Seq<char>,
    budget: nat,
)
    ensures
        nest_cost(doc, map, sels.push(s), parent, budget) == match nest_cost(doc, map, sels, parent, budget) {
            Err(e) => Err(e),
            Ok(a) => match nest_cost(doc, map, seq![s], parent, budget) {
                Err(e) => Err(e),
                Ok(b) => Ok(a + b),
            },
        },
{
    assert(sels.push(s).drop_last() =~= sels);
    assert(seq![s].drop_last() =~= Seq::<SelectionNode>::empty());
    assert(nest_cost(doc, map, Seq::<SelectionNode>::empty(), parent, budget) == Ok::<nat, AnalysisError>(0));
}

fn walk_cost(
    doc: &Document,
    cost_map: &CostMap,
    sels: &Vec<SelectionNode>,
    parent: &str,
    budget: usize,
) -> (r: Result<Option<usize>, AnalysisError>)
    ensures
        match nest_cost(*doc, cost_map@, sels@, parent@, budget as nat) {
            Ok(n) => r == Ok::<Option<usize>, AnalysisError>(tally(n)),
            Err(e) => r == Err::<Option<usize>, AnalysisError>(e),
        },
    decreases budget, sels@,
{
    let mut total: Option<usize> = Some(0);
    let mut i: usize = 0;
    assert(sels@.subrange(0, 0) =~= Seq::<SelectionNode>::empty());
    while i < sels.len()
        invariant
            0 <= i <= sels@.len(),
            match nest_cost(*doc, cost_map@, sels@.subrange(0, i as int), parent@, budget as nat) {
                Ok(n) => total == tally(n),
                Err(_) => false,
            },
        decreases sels@.len() - i,
    {
        proof {
            assert(sels@.subrange(0, i as int + 1) =~= sels@.subrange(0, i as int).push(sels@[i as int]));
            lemma_cost_push(*doc, cost_map@, sels@.subrange(0, i as int), sels@[i as int], parent@, budget as nat);
        }
        match selection_cost(doc, cost_map, &sels[i], parent, budget) {
            Err(e) => {
                proof { lemma_cost_error_persists(*doc, cost_map@, sels@, i as int + 1, parent@, budget as nat); }
                return Err(e);
            },
            Ok(b) => {
                total = add_tally(total, b);
            },
        }
        i = i + 1;
    }
    proof { assert(sels@.subrange(0, sels@.len() as int) =~= sels@); }
    Ok(total)
}

/// Total cost of `operation` within `doc`, weighted by `cost_map`.
pub fn document_operation_cost(doc: &Document, cost_map: &CostMap, operation: &Operation) -> (r: Result<Cost, AnalysisError>)
    ensures
        r == cost_result(operation_cost_of(*doc, cost_map@, *operation)),
{
    match doc.operation_root_type(operation) {
        None => Err(AnalysisError::MissingRootType),
        Some(root) => {
            match walk_cost(doc, cost_map, &operation.selections, root.as_str(), doc.fragments.len()) {
                Err(e) => Err(e),
                Ok(Some(c)) => Ok(Cost::new(c)),
                Ok(None) => Err(AnalysisError::Overflow),
            }
        },
    }
}

/// Total cost of the operation that `operation_name` selects in `doc`.
/// A document whose schema lacks the root type, or that spreads an
/// undefined fragment, is not excluded by a precondition: it is answered
/// with `MissingRootType` or `UnknownFragment`, so that a caller can take its
/// "could not calculate" path.
pub fn document_cost(doc: &Document, cost_map: &CostMap, operation_name: Option<&str>) -> (r: Result<Cost, AnalysisError>)
    ensures
        r == cost_result(document_cost_of(*doc, cost_map@, name_view(operation_name))),
{
    match doc.operation_by_name(operation_name) {
        None => Err(AnalysisError::MissingOperation),
        Some(op) => document_operation_cost(doc, cost_map, op),
    }
}

} // verus!

verus! {

/// Whether a selection tree holds no fragment spread.
pub open spec fn spread_free(sels: Seq<SelectionNode>) -> bool
    decreases sels,
{
    if sels.len() == 0 {
        true
    } else {
        spread_free(sels.drop_last()) && match sels.last() {
            SelectionNode::Field { selections, .. } => spread_free(selections@),
            SelectionNode::InlineFragment { selections, .. } => spread_free(selections@),
            SelectionNode::FragmentSpread { .. } => false,
        }
    }
}

/// The plain sum over a selection tree: each field whose type resolves and
/// is not reserved for introspection weighs its coordinate (one where the
/// map holds none) plus its own selections; inline fragments pass through.
pub open spec fn field_weights(map: Map<Seq<char>, usize>, sels: Seq<SelectionNode>, parent: Seq<char>) -> nat
    decreases sels,
{
    if sels.len() == 0 {
        0
    } else {
        field_weights(map, sels.drop_last(), parent) + match sels.last() {
            SelectionNode::Field { name, ty, selections } => match ty {
                Some(t) => if is_introspection(t@) {
                    0
                } else {
                    weight_of(map, coordinate(parent, name@)) + field_weights(map, selections@, t@)
                },
                None => 0,
            },
            SelectionNode::InlineFragment { type_condition, selections } => match type_condition {
                Some(t) => field_weights(map, selections@, t@),
                None => field_weights(map, selections@, parent),
            },
            SelectionNode::FragmentSpread { .. } => 0,
        }
    }
}

/// Without fragment spreads, the cost of a selection tree is the plain sum
/// of its field weights, and never fails.
pub proof fn lemma_spread_free_cost(
    doc: Document,
    map: Map<Seq<char>, usize>,
    sels: Seq<SelectionNode>,
    parent: Seq<char>,
    budget: nat,
)
    requires
        spread_free(sels),
    ensures
        nest_cost(doc, map, sels, parent, budget) == Ok::<nat, AnalysisError>(field_weights(map, sels, parent)),
    decreases sels,
{
    if sels.len() > 0 {
        lemma_spread_free_cost(doc, map, sels.drop_last(), parent, budget);
        match sels.last() {
            SelectionNode::Field { selections, ty, .. } => match ty {
                Some(t) => lemma_spread_free_cost(doc, map, selections@, t@, budget),
                None => {},
            },
            SelectionNode::InlineFragment { type_condition, selections } => match type_condition {
                Some(t) => lemma_spread_free_cost(doc, map, selections@, t@, budget),
                None => lemma_spread_free_cost(doc, map, selections@, parent, budget),
            },
            SelectionNode::FragmentSpread { .. } => {},
        }
    }
}

/// A document with a single operation and no fragments costs, under no
/// operation name, the sum of its field weights: one per field that is not
/// an introspection field, unless the cost map says otherwise, recursively.
pub proof fn lemma_single_operation_cost(doc: Document, map: Map<Seq<char>, usize>)
    requires
        doc.operations@.len() == 1,
        doc.fragments@.len() == 0,
        spread_free(doc.operations@[0].selections@),
        first_equal(doc.object_types@, root_type_name_of(doc.operations@[0].kind)) is Some,
    ensures
        document_cost_of(doc, map, None) == Ok::<nat, AnalysisError>(
            field_weights(map, doc.operations@[0].selections@, root_type_name_of(doc.operations@[0].kind)),
        ),
{
    let op = doc.operations@[0];
    lemma_spread_free_cost(doc, map, op.selections@, root_type_name_of(op.kind), 0);
}

/// A field whose type is reserved for introspection adds nothing to a
/// cost, whatever the cost map holds and whatever lies below it.
pub proof fn lemma_introspection_costs_nothing(
    doc: Document,
    map: Map<Seq<char>, usize>,
    sels: Seq<SelectionNode>,
    field: SelectionNode,
    parent: Seq<char>,
    budget: nat,
)
    requires
        field matches SelectionNode::Field { ty: Some(t), .. } && is_introspection(t@),
    ensures
        nest_cost(doc, map, sels.push(field), parent, budget) == nest_cost(doc, map, sels, parent, budget),
{
    assert(sels.push(field).drop_last() =~= sels);
}

/// With no name given, a document whose operation count is not one has no
/// selected operation: both analyses report it missing.
pub proof fn lemma_ambiguous_operation(doc: Document, map: Map<Seq<char>, usize>)
    requires
        doc.operations@.len() != 1,
    ensures
        document_cost_of(doc, map, None) == Err::<nat, AnalysisError>(AnalysisError::MissingOperation),
        crate::depth::document_depth_of(doc, None) == Err::<nat, AnalysisError>(AnalysisError::MissingOperation),
{
}

/// Both analyses are functions of their inputs: equal inputs give equal
/// results.
pub proof fn lemma_analyses_deterministic(
    doc1: Document,
    doc2: Document,
    map1: Map<Seq<char>, usize>,
    map2: Map<Seq<char>, usize>,
    name: Option<Seq<char>>,
)
    requires
        doc1 == doc2,
        map1 == map2,
    ensures
        document_cost_of(doc1, map1, name) == document_cost_of(doc2, map2, name),
        crate::depth::document_depth_of(doc1, name) == crate::depth::document_depth_of(doc2, name),
{
}

} // verus!
