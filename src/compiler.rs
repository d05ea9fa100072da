use vstd::prelude::*;
use vstd::string::StringExecFns;

use apollo_compiler::hir;
use apollo_compiler::ApolloCompiler;
use apollo_compiler::HirDatabase;

use crate::cost::Cost;
use crate::cost_map::CostMap;
use crate::depth::{document_depth, document_depth_of};
use crate::document::{name_view, nests_within, Document, Fragment, Operation, OperationKind, SelectionNode};
use crate::error::AnalysisError;
use crate::operation_cost::{cost_result, document_cost, document_cost_of};
use crate::screen::{numbers_are_well_formed, numbers_well_formed};

verus! {

#[verifier::external_type_specification]
#[verifier::external_body]
pub struct ExApolloCompiler(ApolloCompiler);

#[verifier::external_type_specification]
#[verifier::external_body]
pub struct ExOperationDefinition(hir::OperationDefinition);

#[verifier::external_type_specification]
#[verifier::external_body]
pub struct ExSelectionSet(hir::SelectionSet);

/// Relies on `ApolloCompiler::new`: parses and indexes GraphQL source text.
pub assume_specification[ ApolloCompiler::new ](input: &str) -> ApolloCompiler;

/// apollo_compiler's compilation of a source text, kept with that text.
/// Only `Compiled::new` builds one, so the text is the one compiled.
struct Compiled {
    compiler: ApolloCompiler,
    text: String,
}

impl Compiled {
    /// The text that was compiled.
    closed spec fn source(&self) -> Seq<char> {
        self.text@
    }

    fn new(source: &str) -> (r: Compiled)
        ensures
            r.source() == source@,
    {
        Compiled { compiler: ApolloCompiler::new(source), text: source.to_owned() }
    }
}

/// The document that apollo_compiler reads from `source`, converted node
/// for node.
pub uninterp spec fn parsed_document(source: Seq<char>) -> Document;

/// Relies on `OperationDefinition::operation_ty`, read variant for variant.
#[verifier::external_body]
fn operation_kind(op: &hir::OperationDefinition) -> OperationKind {
    match op.operation_ty() {
        hir::OperationType::Query => OperationKind::Query,
        hir::OperationType::Mutation => OperationKind::Mutation,
        hir::OperationType::Subscription => OperationKind::Subscription,
    }
}

/// Relies on `SelectionSet::selection` and on the getters of each
/// selection's variant, with `Field::ty` for a field's declared type: the
/// selections read node for node. `Field::ty` builds the type-system
/// definitions of the compiled text, which reads its numbers with
/// `f64::from_str` and panics where that fails.
#[verifier::external_body]
fn hir_selections(c: &Compiled, set: &hir::SelectionSet) -> Vec<SelectionNode>
    requires
        numbers_well_formed(c.source()),
{
    set.selection().iter().map(|s| match s {
        hir::Selection::Field(f) => SelectionNode::Field {
            name: f.name().to_owned(),
            ty: f.ty(&c.compiler.db).map(|t| t.name()),
            selections: hir_selections(c, f.selection_set()),
        },
        hir::Selection::FragmentSpread(f) => SelectionNode::FragmentSpread { name: f.name().to_owned() },
        hir::Selection::InlineFragment(f) => SelectionNode::InlineFragment {
            type_condition: f.type_condition().map(str::to_owned),
            selections: hir_selections(c, f.selection_set()),
        },
    }).collect()
}

/// Relies on the `operations`, `fragments` and `object_types` queries of
/// apollo_compiler's `HirDatabase` (each in source order, and each reading
/// the numbers of the compiled text), converted node for node: the document
/// depends on the text alone.
#[verifier::external_body]
fn compile_document(c: &Compiled) -> (r: Document)
    requires
        numbers_well_formed(c.source()),
    ensures
        r == parsed_document(c.source()),
{
    let db = &c.compiler.db;
    Document {
        operations: db.operations().iter().map(|op| Operation {
            name: op.name().map(str::to_owned),
            kind: operation_kind(op),
            selections: hir_selections(c, op.selection_set()),
        }).collect(),
        fragments: db.fragments().iter().map(|f| Fragment {
            name: f.name().to_owned(),
            type_condition: f.type_condition().to_owned(),
            selections: hir_selections(c, f.selection_set()),
        }).collect(),
        object_types: db.object_types().iter().map(|t| t.name().to_owned()).collect(),
    }
}

/// How deeply selection sets may nest in a document that is analysed; the
/// parser's own recursion limit.
pub const MAX_NESTING: usize = 4096;

/// What parsing `source` yields: `MalformedNumber` where a number token is
/// one that apollo_compiler cannot read, `TooDeep` where the compiled
/// document nests selection sets deeper than `MAX_NESTING`, else that
/// document.
pub open spec fn parse_outcome(source: Seq<char>) -> Result<Document, AnalysisError> {
    if !numbers_well_formed(source) {
        Err(AnalysisError::MalformedNumber)
    } else if !nests_within(parsed_document(source), MAX_NESTING as nat) {
        Err(AnalysisError::TooDeep)
    } else {
        Ok(parsed_document(source))
    }
}

impl Document {
    /// Parses GraphQL source (a schema, executable definitions, or both) into
    /// the document that the analyses read.
    pub fn parse(source: &str) -> (r: Result<Document, AnalysisError>)
        ensures
            r == parse_outcome(source@),
    {
        if !numbers_are_well_formed(source) {
            return Err(AnalysisError::MalformedNumber);
        }
        let compiled = Compiled::new(source);
        let doc = compile_document(&compiled);
        if doc.nests_within(MAX_NESTING) {
            Ok(doc)
        } else {
            Err(AnalysisError::TooDeep)
        }
    }
}

/// Whether `r` is what the depth analysis yields on `doc` for `name`.
pub open spec fn depth_outcome(doc: Document, name: Option<Seq<char>>, r: Result<usize, AnalysisError>) -> bool {
    match r {
        Ok(v) => document_depth_of(doc, name) == Ok::<nat, AnalysisError>(v as nat),
        Err(e) => document_depth_of(doc, name) == Err::<nat, AnalysisError>(e),
    }
}

/// Maximum nesting depth of the operation that `operation_name` selects in
/// the operation text `operation`, which needs no schema.
pub fn operation_depth(operation: &str, operation_name: Option<&str>) -> (r: Result<usize, AnalysisError>)
    ensures
        match parse_outcome(operation@) {
            Ok(doc) => depth_outcome(doc, name_view(operation_name), r),
            Err(e) => r == Err::<usize, AnalysisError>(e),
        },
{
    match Document::parse(operation) {
        Err(e) => Err(e),
        Ok(doc) => document_depth(&doc, operation_name),
    }
}

/// Total cost of the operation that `operation_name` selects in `operation`,
/// read against the schema `sdl` and weighted by `cost_map`. A schema
/// without the root type, or a spread of an undefined fragment, is reported
/// as a typed error (`MissingRootType`, `UnknownFragment`) for the caller's
/// "could not calculate" path, rather than taken as a broken precondition.
pub fn operation_cost(sdl: &str, operation: &str, operation_name: Option<&str>, cost_map: &CostMap) -> (r: Result<Cost, AnalysisError>)
    ensures
        r == match parse_outcome(sdl@ + operation@) {
            Ok(doc) => cost_result(document_cost_of(doc, cost_map@, name_view(operation_name))),
            Err(e) => Err(e),
        },
{
    let mut input = String::from_str(sdl);
    input.append(operation);
    match Document::parse(input.as_str()) {
        Err(e) => Err(e),
        Ok(doc) => document_cost(&doc, cost_map, operation_name),
    }
}

} // verus!
