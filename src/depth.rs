use vstd::prelude::*;

use crate::document::{first_fragment, selected_operation, name_view, Document, Operation, SelectionNode};
use crate::error::AnalysisError;

verus! {

/// Height of the selection tree `sels` met at level `d`: a field or an inline
/// fragment opens a level, and so does a spread of a fragment that the
/// document defines, whose selections are walked in place; a spread of an
/// unknown fragment opens none. `budget` bounds how many spreads may nest; a
/// chain of spreads longer than the fragment list revisits a fragment, so
/// running out of it reports a cycle. Errors come in walk order.
pub open spec fn nest_depth(doc: Document, sels: Seq<SelectionNode>, d: nat, budget: nat) -> Result<nat, AnalysisError>
    decreases budget, sels,
{
    if sels.len() == 0 {
        Ok(d)
    } else {
        match nest_depth(doc, sels.drop_last(), d, budget) {
            Err(e) => Err(e),
            Ok(a) => {
                let below = match sels.last() {
                    SelectionNode::Field { selections, .. } => if d >= usize::MAX {
                        Err(AnalysisError::Overflow)
                    } else {
                        nest_depth(doc, selections@, d + 1, budget)
                    },
                    SelectionNode::InlineFragment { selections, .. } => if d >= usize::MAX {
                        Err(AnalysisError::Overflow)
                    } else {
                        nest_depth(doc, selections@, d + 1, budget)
                    },
                    SelectionNode::FragmentSpread { name } => match first_fragment(doc.fragments@, name@) {
                        None => Ok(d),
                        Some(k) => if budget == 0 {
                            Err(AnalysisError::FragmentCycle)
                        } else if d >= usize::MAX {
                            Err(AnalysisError::Overflow)
                        } else {
                            nest_depth(doc, doc.fragments@[k].selections@, d + 1, (budget - 1) as nat)
                        },
                    },
                };
                match below {
                    Err(e) => Err(e),
                    Ok(b) => Ok(if a >= b { a } else { b }),
                }
            },
        }
    }
}

/// Depth of an operation: its selection tree walked from level zero, with as
/// many nested spreads allowed as the document has fragments.
pub open spec fn operation_depth_of(doc: Document, op: Operation) -> Result<nat, AnalysisError> {
    nest_depth(doc, op.selections@, 0, doc.fragments@.len())
}

/// Depth of the operation that a request names.
pub open spec fn document_depth_of(doc: Document, name: Option<Seq<char>>) -> Result<nat, AnalysisError> {
    match selected_operation(doc, name) {
        None => Err(AnalysisError::MissingOperation),
        Some(i) => operation_depth_of(doc, doc.operations@[i]),
    }
}

/// A depth is never below the level it starts at, nor above the largest
/// machine word when the starting level is not.
pub proof fn lemma_depth_bounds(doc: Document, sels: Seq<SelectionNode>, d: nat, budget: nat)
    requires
        d <= usize::MAX,
    ensures
        nest_depth(doc, sels, d, budget) matches Ok(n) ==> d <= n <= usize::MAX,
    decreases budget, sels,
{
    if sels.len() > 0 {
        lemma_depth_bounds(doc, sels.drop_last(), d, budget);
        match sels.last() {
            SelectionNode::Field { selections, .. } => if d < usize::MAX {
                lemma_depth_bounds(doc, selections@, d + 1, budget);
            },
            SelectionNode::InlineFragment { selections, .. } => if d < usize::MAX {
                lemma_depth_bounds(doc, selections@, d + 1, budget);
            },
            SelectionNode::FragmentSpread { name } => match first_fragment(doc.fragments@, name@) {
                None => {},
                Some(k) => if budget > 0 && d < usize::MAX {
                    lemma_depth_bounds(doc, doc.fragments@[k].selections@, d + 1, (budget - 1) as nat);
                },
            },
        }
    }
}

/// Once a prefix of a selection set fails, the whole set fails the same way.
proof fn lemma_depth_error_persists(doc: Document, sels: Seq<SelectionNode>, j: int, d: nat, budget: nat)
    requires
        0 <= j <= sels.len(),
        nest_depth(doc, sels.subrange(0, j), d, budget) is Err,
    ensures
        nest_depth(doc, sels, d, budget) == nest_depth(doc, sels.subrange(0, j), d, budget),
    decreases sels.len() - j,
{
    if j < sels.len() {
        let next = sels.subrange(0, j + 1);
        assert(next.drop_last() =~= sels.subrange(0, j));
        lemma_depth_error_persists(doc, sels, j + 1, d, budget);
    } else {
        assert(sels.subrange(0, j) =~= sels);
    }
}

fn walk_depth(doc: &Document, sels: &Vec<SelectionNode>, d: usize, budget: usize) -> (r: Result<usize, AnalysisError>)
    ensures
        r matches Ok(v) ==> nest_depth(*doc, sels@, d as nat, budget as nat) == Ok::<nat, AnalysisError>(v as nat),
        r matches Err(e) ==> nest_depth(*doc, sels@, d as nat, budget as nat) == Err::<nat, AnalysisError>(e),
    decreases budget, sels@,
{
    let mut best: usize = d;
    let mut i: usize = 0;
    assert(sels@.subrange(0, 0) =~= Seq::<SelectionNode>::empty());
    while i < sels.len()
        invariant
            0 <= i <= sels@.len(),
            nest_depth(*doc, sels@.subrange(0, i as int), d as nat, budget as nat) == Ok::<nat, AnalysisError>(best as nat),
        decreases sels@.len() - i,
    {
        let ghost prefix = sels@.subrange(0, i as int + 1);
        proof {
            assert(prefix.drop_last() =~= sels@.subrange(0, i as int));
            assert(prefix.last() == sels@[i as int]);
        }
        let below: Result<usize, AnalysisError> = match &sels[i] {
            SelectionNode::Field { selections, .. } => {
                if d == usize::MAX {
                    Err(AnalysisError::Overflow)
                } else {
                    walk_depth(doc, selections, d + 1, budget)
                }
            },
            SelectionNode::InlineFragment { selections, .. } => {
                if d == usize::MAX {
                    Err(AnalysisError::Overflow)
                } else {
                    walk_depth(doc, selections, d + 1, budget)
                }
            },
            SelectionNode::FragmentSpread { name } => {
                match doc.fragment_by_name(name) {
                    None => Ok(d),
                    Some(f) => {
                        if budget == 0 {
                            Err(AnalysisError::FragmentCycle)
                        } else if d == usize::MAX {
                            Err(AnalysisError::Overflow)
                        } else {
                            walk_depth(doc, &f.selections, d + 1, budget - 1)
                        }
                    },
                }
            },
        };
        match below {
            Err(e) => {
                proof { lemma_depth_error_persists(*doc, sels@, i as int + 1, d as nat, budget as nat); }
                return Err(e);
            },
            Ok(b) => {
                if b > best {
                    best = b;
                }
            },
        }
        i = i + 1;
    }
    proof { assert(sels@.subrange(0, sels@.len() as int) =~= sels@); }
    Ok(best)
}

impl Operation {
    /// Maximum nesting depth of this operation's selections within `doc`.
    pub fn max_depth(&self, doc: &Document) -> (r: Result<usize, AnalysisError>)
        ensures
            r matches Ok(v) ==> operation_depth_of(*doc, *self) == Ok::<nat, AnalysisError>(v as nat),
            r matches Err(e) ==> operation_depth_of(*doc, *self) == Err::<nat, AnalysisError>(e),
    {
        walk_depth(doc, &self.selections, 0, doc.fragments.len())
    }
}

/// Depth of the operation that `operation_name` selects in `doc`.
pub fn document_depth(doc: &Document, operation_name: Option<&str>) -> (r: Result<usize, AnalysisError>)
    ensures
        r matches Ok(v) ==> document_depth_of(*doc, name_view(operation_name)) == Ok::<nat, AnalysisError>(v as nat),
        r matches Err(e) ==> document_depth_of(*doc, name_view(operation_name)) == Err::<nat, AnalysisError>(e),
{
    match doc.operation_by_name(operation_name) {
        None => Err(AnalysisError::MissingOperation),
        Some(op) => op.max_depth(doc),
    }
}

} // verus!

verus! {

/// A field is walked for depth whatever its type, introspection included:
/// below level `d`, a field with selections `sels` reaches their depth one
/// level down.
pub proof fn lemma_field_depth(doc: Document, field: SelectionNode, d: nat, budget: nat)
    requires
        field matches SelectionNode::Field { .. },
        d < usize::MAX,
    ensures
        nest_depth(doc, seq![field], d, budget) == nest_depth(doc, field->Field_selections@, d + 1, budget),
{
    let one = seq![field];
    assert(one.drop_last() =~= Seq::<SelectionNode>::empty());
    assert(one.last() == field);
    assert(nest_depth(doc, Seq::<SelectionNode>::empty(), d, budget) == Ok::<nat, AnalysisError>(d));
    lemma_depth_bounds(doc, field->Field_selections@, d + 1, budget);
}

} // verus!
