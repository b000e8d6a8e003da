use uri_globbing::{validate_delimiter_order, Delimiter, OrderError};
use Delimiter::{PATH, PRE_FRAGMENT, PRE_QUERY, QUERY, SCHEME_AUTHORITY, SCHEME_PATH};

#[test]
fn test_validate_delimiter_order() {
    let order = vec![
        Delimiter::SCHEME_PATH,
        Delimiter::PATH,
        Delimiter::PATH,
        Delimiter::PRE_QUERY,
        Delimiter::QUERY,
        Delimiter::PRE_FRAGMENT,
    ];
    let validatation_result = validate_delimiter_order(&order);
    println!("{:?}", validatation_result);
    assert!(validatation_result.is_ok());
}

#[test]
fn path_without_scheme_is_out_of_order() {
    assert_eq!(validate_delimiter_order(&vec![Delimiter::PATH]), Err(OrderError::PathOutOfOrder));
}

#[test]
fn empty_trace_is_in_order() {
    assert_eq!(validate_delimiter_order(&vec![]), Ok(()));
}

#[test]
fn each_rule_reports_its_error() {
    let cases = [
        (vec![SCHEME_AUTHORITY, SCHEME_PATH], OrderError::SchemeNotFirst),
        (vec![SCHEME_PATH, PRE_QUERY, PATH], OrderError::PathOutOfOrder),
        (vec![PRE_QUERY], OrderError::QueryOutOfOrder),
        (vec![SCHEME_PATH, QUERY], OrderError::QuerySeparatorOutOfOrder),
        (vec![SCHEME_PATH, PRE_FRAGMENT, PRE_FRAGMENT], OrderError::FragmentOutOfOrder),
        (vec![PRE_FRAGMENT], OrderError::FragmentOutOfOrder),
    ];
    for (trace, expected) in cases {
        assert_eq!(validate_delimiter_order(&trace), Err(expected), "trace: {:?}", trace);
    }
}

#[test]
fn chained_paths_and_queries_are_in_order() {
    let trace = vec![SCHEME_AUTHORITY, PATH, PATH, PRE_QUERY, QUERY, QUERY];
    assert_eq!(validate_delimiter_order(&trace), Ok(()));
    assert_eq!(validate_delimiter_order(&vec![SCHEME_AUTHORITY, PRE_FRAGMENT]), Ok(()));
}

#[test]
fn fragment_may_follow_any_query_part() {
    assert_eq!(validate_delimiter_order(&vec![SCHEME_PATH, PRE_QUERY, QUERY, PRE_FRAGMENT]), Ok(()));
    assert_eq!(validate_delimiter_order(&vec![SCHEME_PATH, PATH, PRE_QUERY, PRE_FRAGMENT]), Ok(()));
    assert_eq!(
        validate_delimiter_order(&vec![SCHEME_PATH, PRE_FRAGMENT, QUERY]),
        Err(OrderError::QuerySeparatorOutOfOrder)
    );
}
