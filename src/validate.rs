use vstd::prelude::*;

use crate::primitives::Delimiter;

verus! {

// The order of delimiters in a URI:
//   (SCHEME_PATH | SCHEME_AUTHORITY) PATH* (PRE_QUERY QUERY*)? PRE_FRAGMENT?

/// The rule of URI order that a delimiter trace breaks.
#[derive(Clone, Copy, Debug, PartialEq, Eq, Structural)]
pub enum OrderError {
    /// A scheme delimiter comes after another delimiter.
    SchemeNotFirst,
    /// A `/` follows neither a scheme delimiter nor another `/`.
    PathOutOfOrder,
    /// The query introducer follows neither a scheme delimiter nor a `/`.
    QueryOutOfOrder,
    /// A `&` follows neither the query introducer nor another `&`.
    QuerySeparatorOutOfOrder,
    /// A `#` follows neither a scheme delimiter, a `/`, the query introducer
    /// nor a `&`.
    FragmentOutOfOrder,
}

/// Whether `d` may follow `prev`, where `None` is the start of the trace.
pub open spec fn allowed_after(d: Delimiter, prev: Option<Delimiter>) -> bool {
    match d {
        Delimiter::SCHEME_PATH | Delimiter::SCHEME_AUTHORITY => prev is None,
        Delimiter::PATH | Delimiter::PRE_QUERY => prev matches Some(p) && (p
            == Delimiter::SCHEME_PATH || p == Delimiter::SCHEME_AUTHORITY || p == Delimiter::PATH),
        Delimiter::QUERY => prev matches Some(p) && (p == Delimiter::PRE_QUERY || p
            == Delimiter::QUERY),
        Delimiter::PRE_FRAGMENT => prev matches Some(p) && (p == Delimiter::SCHEME_PATH || p
            == Delimiter::SCHEME_AUTHORITY || p == Delimiter::PATH || p == Delimiter::PRE_QUERY || p
            == Delimiter::QUERY),
    }
}

/// The error reported for a misplaced `d`.
pub open spec fn order_error_of(d: Delimiter) -> OrderError {
    match d {
        Delimiter::SCHEME_PATH | Delimiter::SCHEME_AUTHORITY => OrderError::SchemeNotFirst,
        Delimiter::PATH => OrderError::PathOutOfOrder,
        Delimiter::PRE_QUERY => OrderError::QueryOutOfOrder,
        Delimiter::QUERY => OrderError::QuerySeparatorOutOfOrder,
        Delimiter::PRE_FRAGMENT => OrderError::FragmentOutOfOrder,
    }
}

/// The delimiter before position `i` of `s`, `None` at the start.
pub open spec fn predecessor(s: Seq<Delimiter>, i: int) -> Option<Delimiter> {
    if i == 0 {
        None
    } else {
        Some(s[i - 1])
    }
}

/// Each of the first `n` delimiters of `s` may follow the one before it.
pub open spec fn in_order_upto(s: Seq<Delimiter>, n: int) -> bool {
    forall|i: int| 0 <= i < n ==> allowed_after(#[trigger] s[i], predecessor(s, i))
}

/// The trace `s` follows URI order.
pub open spec fn in_order(s: Seq<Delimiter>) -> bool {
    in_order_upto(s, s.len() as int)
}

/// Checks that a delimiter trace follows URI order. On failure the error
/// names the rule that the first misplaced delimiter breaks.
pub fn validate_delimiter_order(delimiter_order: &Vec<Delimiter>) -> (r: Result<(), OrderError>)
    ensures
        r is Ok <==> in_order(delimiter_order@),
        r matches Err(e) ==> exists|i: int|
            0 <= i < delimiter_order@.len() && in_order_upto(delimiter_order@, i)
                && !allowed_after(delimiter_order@[i], predecessor(delimiter_order@, i)) && e
                == order_error_of(delimiter_order@[i]),
{
    let mut last_delimiter: Option<Delimiter> = None;
    let mut i: usize = 0;
    while i < delimiter_order.len()
        invariant
            0 <= i <= delimiter_order@.len(),
            last_delimiter == predecessor(delimiter_order@, i as int),
            in_order_upto(delimiter_order@, i as int),
        decreases delimiter_order@.len() - i,
    {
        let delimiter = delimiter_order[i];
        let allowed = match delimiter {
            Delimiter::SCHEME_PATH | Delimiter::SCHEME_AUTHORITY => last_delimiter.is_none(),
            Delimiter::PATH | Delimiter::PRE_QUERY => match last_delimiter {
                Some(Delimiter::SCHEME_PATH) | Some(Delimiter::SCHEME_AUTHORITY) | Some(
                    Delimiter::PATH,
                ) => true,
                _ => false,
            },
            Delimiter::QUERY => match last_delimiter {
                Some(Delimiter::PRE_QUERY) | Some(Delimiter::QUERY) => true,
                _ => false,
            },
            Delimiter::PRE_FRAGMENT => match last_delimiter {
                Some(Delimiter::SCHEME_PATH) | Some(Delimiter::SCHEME_AUTHORITY) | Some(
                    Delimiter::PATH,
                ) | Some(Delimiter::PRE_QUERY) | Some(Delimiter::QUERY) => true,
                _ => false,
            },
        };
        if !allowed {
            let e = match delimiter {
                Delimiter::SCHEME_PATH | Delimiter::SCHEME_AUTHORITY => OrderError::SchemeNotFirst,
                Delimiter::PATH => OrderError::PathOutOfOrder,
                Delimiter::PRE_QUERY => OrderError::QueryOutOfOrder,
                Delimiter::QUERY => OrderError::QuerySeparatorOutOfOrder,
                Delimiter::PRE_FRAGMENT => OrderError::FragmentOutOfOrder,
            };
            assert(!in_order(delimiter_order@)) by {
                assert(!allowed_after(delimiter_order@[i as int], predecessor(delimiter_order@, i as int)));
            }
            return Err(e);
        }
        last_delimiter = Some(delimiter);
        i = i + 1;
    }
    Ok(())
}

} // verus!
