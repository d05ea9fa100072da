use vstd::prelude::*;

verus! {

/// Why an analysis produced no value.
#[derive(Debug, Clone, Copy, PartialEq, Eq, Structural)]
pub enum AnalysisError {
    /// No name was given and the document does not hold exactly one
    /// operation, or no operation carries the given name.
    MissingOperation,
    /// The schema has no object type named after the operation's kind.
    MissingRootType,
    /// A fragment spread names a fragment that the document does not define.
    UnknownFragment,
    /// Fragment spreads nest deeper than the document has fragments, which
    /// only a fragment that spreads itself, directly or not, can cause.
    FragmentCycle,
    /// The result does not fit in a machine word.
    Overflow,
    /// The document nests selection sets deeper than the analysis accepts.
    TooDeep,
    /// A number in the source is not one that can be read, such as `1e`
    /// or a lone `-`.
    MalformedNumber,
}

} // verus!
