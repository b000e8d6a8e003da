//! Glob-style URI patterns, parsed and rendered as regular expressions.
use vstd::prelude::*;

pub mod error;
pub mod parser;
pub mod primitives;
pub mod regex_gen;
pub mod validate;

pub use error::GlobError;
pub use parser::Parser;
pub use primitives::{Delimiter, Node, Primitive, AST};
pub use regex_gen::{to_regex, to_regex_str};
pub use validate::{validate_delimiter_order, OrderError};

use regex_gen::{glob_regex, regex_compiles, regex_is_match, regex_matches};

verus! {

/// Whether `test_string` matches the glob pattern `glob` as a whole: the
/// regex engine's answer for the anchored regex text of `glob`.
/// `MalformedPattern` where the pattern does not parse, `PatternCompilation`
/// where the regex engine refuses the generated text.
pub fn is_match(test_string: &str, glob: &str) -> (r: Result<bool, GlobError>)
    ensures
        match glob_regex(glob@) {
            Some(text) => (r is Ok <==> regex_compiles(text)) && (r is Err ==> r->Err_0
                == GlobError::PatternCompilation) && (r matches Ok(b) ==> b == regex_matches(
                text,
                test_string@,
            )),
            None => r is Err && r->Err_0 == GlobError::MalformedPattern,
        },
{
    match to_regex_str(glob) {
        Ok(text) => match regex_is_match(text.as_str(), test_string) {
            Some(b) => Ok(b),
            None => Err(GlobError::PatternCompilation),
        },
        Err(e) => Err(e),
    }
}

} // verus!
