use operation_limits::compiler::{operation_cost, operation_depth};
use operation_limits::cost::Cost;
use operation_limits::cost_map::CostMap;
use operation_limits::document::Document;
use operation_limits::error::AnalysisError;
use operation_limits::screen::{is_well_formed_number, numbers_are_well_formed};

#[test]
fn number_grammar() {
    for ok in ["0", "12", "-3", "+4", "1.5", "1.", "2e10", "2E+3", "-7.25e-2"] {
        assert!(is_well_formed_number(ok), "{}", ok);
    }
    for bad in ["", "-", "+", "1e", "1e+", "1.5E-", "e5", "1x"] {
        assert!(!is_well_formed_number(bad), "{}", bad);
    }
}

#[test]
fn argument_with_bare_exponent_is_refused() {
    let sdl = "type Query { a(x: Float): Int }";
    assert_eq!(
        operation_cost(sdl, "{ a(x: 1e) }", None, &CostMap::new()),
        Err(AnalysisError::MalformedNumber)
    );
    assert_eq!(operation_depth("{ a(x: 1e) }", None), Err(AnalysisError::MalformedNumber));
}

#[test]
fn variable_default_with_bare_exponent_is_refused() {
    assert_eq!(
        operation_depth("query Q($x: Float = 1e) { a }", None),
        Err(AnalysisError::MalformedNumber)
    );
    assert_eq!(
        operation_depth("fragment f on Query { a(x: 1e) } { ...f }", None),
        Err(AnalysisError::MalformedNumber)
    );
}

#[test]
fn schema_defaults_with_bare_exponent_are_refused() {
    assert_eq!(
        operation_cost("type Query { a(x: Float = 1e): Int }", "{ a }", None, &CostMap::new()),
        Err(AnalysisError::MalformedNumber)
    );
    assert_eq!(
        operation_cost("type Query { a: Int } input I { x: Float = 1e }", "{ a }", None, &CostMap::new()),
        Err(AnalysisError::MalformedNumber)
    );
    assert_eq!(operation_depth("{ a(x: -) }", None), Err(AnalysisError::MalformedNumber));
}

#[test]
fn text_in_strings_and_comments_is_not_a_number() {
    let sdl = "\"\"\" counts 1e - or - 2e \"\"\" type Query { \"a - b\" a(x: Float = 1.5e3): Int } # c - 1e\n";
    assert!(numbers_are_well_formed(sdl));
    assert_eq!(operation_cost(sdl, "{ a(x: -2) }", None, &CostMap::new()), Ok(Cost::new(1)));
}

#[test]
fn parse_reads_a_document() {
    let doc = Document::parse("query A { a } fragment f on T { b } type T { b: Int }").unwrap();
    assert_eq!(doc.operations.len(), 1);
    assert_eq!(doc.fragments.len(), 1);
    assert_eq!(doc.object_types, vec!["T".to_string()]);
    assert_eq!(Document::parse("{ a(x: 1e) }").map(|d| d.operations.len()), Err(AnalysisError::MalformedNumber));
}
