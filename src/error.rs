use vstd::prelude::*;

verus! {

/// Why a glob pattern could not be turned into a regular expression.
#[derive(Clone, Copy, Debug, PartialEq, Eq, Structural)]
pub enum GlobError {
    /// A `[` or `{` is not closed before the end of the pattern, or the
    /// pattern ends in a lone `\`.
    MalformedPattern,
    /// The regex engine refused the generated pattern.
    PatternCompilation,
}

} // verus!
