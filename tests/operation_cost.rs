use operation_limits::compiler::operation_cost;
use operation_limits::cost::Cost;
use operation_limits::cost_map::CostMap;
use operation_limits::document::{Document, Fragment, Operation, OperationKind, SelectionNode};
use operation_limits::error::AnalysisError;
use operation_limits::operation_cost::document_cost;

fn cost_map(pairs: &[(&str, usize)]) -> CostMap {
    let mut m = CostMap::new();
    for (k, v) in pairs {
        m.insert(k.to_string(), *v);
    }
    m
}

fn field(name: &str, ty: Option<&str>, selections: Vec<SelectionNode>) -> SelectionNode {
    SelectionNode::Field {
        name: name.to_string(),
        ty: ty.map(|t| t.to_string()),
        selections,
    }
}

fn query_doc(selections: Vec<SelectionNode>, fragments: Vec<Fragment>) -> Document {
    Document {
        operations: vec![Operation { name: None, kind: OperationKind::Query, selections }],
        fragments,
        object_types: vec!["Query".to_string()],
    }
}

#[test]
fn operation_cost_basic() {
    let cost = operation_cost(
        &"type Query { hello: String }".to_string(),
        &"{ hello }".to_string(),
        None,
        &cost_map(&[("Query.hello", 10)]),
    );
    assert_eq!(cost, Ok(Cost::new(10)));
}

#[test]
fn operation_cost_fragments() {
    let cost = operation_cost(
        &"type Query { a: A } type A { b: String }".to_string(),
        &"{ a { ...f } } fragment f on A { b }".to_string(),
        None,
        &cost_map(&[("Query.a", 5), ("A.b", 8)]),
    );
    assert_eq!(cost, Ok(Cost::new(13)));
}

#[test]
fn operation_cost_abstract_types() {
    let cost = operation_cost(
        &"type Query { a: A } interface A { b: String } type A1 implements A { b: String c: String }".to_string(),
        &"{ a { b ... on A1 { c } } ".to_string(),
        None,
        &cost_map(&[("Query.a", 5), ("A.b", 8), ("A1.b", 13), ("A1.c", 13)]),
    );
    assert_eq!(cost, Ok(Cost::new(26)));
}

#[test]
fn mod_basic() {
    let cost = operation_cost(
        &"type Query { hello: String }".to_string(),
        &"{ hello }".to_string(),
        None,
        &cost_map(&[("Query.hello", 10)]),
    );
    assert_eq!(cost.map(|c| c.value()), Ok(10));
}

#[test]
fn mod_fragments() {
    let cost = operation_cost(
        &"type Query { a: A } type A { b: String }".to_string(),
        &"{ a { ...f } } fragment f on A { b }".to_string(),
        None,
        &cost_map(&[("Query.a", 5), ("A.b", 8)]),
    );
    assert_eq!(cost.map(|c| c.value()), Ok(13));
}

#[test]
fn mod_abstract_types() {
    let cost = operation_cost(
        &"type Query { a: A } interface A { b: String } type A1 implements A { b: String c: String }".to_string(),
        &"{ a { b ... on A1 { c } } ".to_string(),
        None,
        &cost_map(&[("Query.a", 5), ("A.b", 8), ("A1.b", 13), ("A1.c", 13)]),
    );
    assert_eq!(cost.map(|c| c.value()), Ok(26));
}

#[test]
fn default_weight_is_one_per_field() {
    let cost = operation_cost(
        "type Query { a: A b: String } type A { c: String d: String }",
        "{ a { c d } b }",
        None,
        &CostMap::new(),
    );
    assert_eq!(cost, Ok(Cost::new(4)));
}

#[test]
fn named_operation_is_selected() {
    let sdl = "type Query { a: String b: String }";
    let ops = "query One { a } query Two { a b }";
    let m = cost_map(&[("Query.b", 7)]);
    assert_eq!(operation_cost(sdl, ops, Some("Two"), &m), Ok(Cost::new(8)));
    assert_eq!(operation_cost(sdl, ops, Some("One"), &m), Ok(Cost::new(1)));
}

#[test]
fn ambiguous_operation_is_missing() {
    let sdl = "type Query { a: String }";
    let ops = "query One { a } query Two { a }";
    assert_eq!(
        operation_cost(sdl, ops, None, &CostMap::new()),
        Err(AnalysisError::MissingOperation)
    );
    assert_eq!(
        operation_cost(sdl, ops, Some("Three"), &CostMap::new()),
        Err(AnalysisError::MissingOperation)
    );
}

#[test]
fn no_operation_is_missing() {
    assert_eq!(
        operation_cost("type Query { a: String }", "", None, &CostMap::new()),
        Err(AnalysisError::MissingOperation)
    );
}

#[test]
fn missing_root_type() {
    assert_eq!(
        operation_cost("type Other { a: String }", "{ a }", None, &CostMap::new()),
        Err(AnalysisError::MissingRootType)
    );
}

#[test]
fn unknown_fragment_fails_cost() {
    assert_eq!(
        operation_cost("type Query { a: A } type A { b: String }", "{ a { ...nowhere } }", None, &CostMap::new()),
        Err(AnalysisError::UnknownFragment)
    );
}

#[test]
fn fragment_cycle_fails_cost() {
    let frag = Fragment {
        name: "f".to_string(),
        type_condition: "Query".to_string(),
        selections: vec![SelectionNode::FragmentSpread { name: "f".to_string() }],
    };
    let doc = query_doc(vec![SelectionNode::FragmentSpread { name: "f".to_string() }], vec![frag]);
    assert_eq!(document_cost(&doc, &CostMap::new(), None), Err(AnalysisError::FragmentCycle));
}

#[test]
fn cost_overflow_is_reported() {
    let doc = query_doc(
        vec![field("a", Some("String"), vec![]), field("b", Some("String"), vec![])],
        vec![],
    );
    let m = cost_map(&[("Query.a", usize::MAX), ("Query.b", 1)]);
    assert_eq!(document_cost(&doc, &m, None), Err(AnalysisError::Overflow));
    let fits = cost_map(&[("Query.a", usize::MAX - 1), ("Query.b", 1)]);
    assert_eq!(document_cost(&doc, &fits, None), Ok(Cost::new(usize::MAX)));
}

#[test]
fn untyped_field_costs_nothing() {
    let doc = query_doc(
        vec![field("a", None, vec![field("b", Some("String"), vec![])]), field("c", Some("String"), vec![])],
        vec![],
    );
    assert_eq!(document_cost(&doc, &CostMap::new(), None), Ok(Cost::new(1)));
}

#[test]
fn introspection_is_free_whatever_the_map() {
    let doc = query_doc(
        vec![
            field("__schema", Some("__Schema"), vec![field("types", Some("__Type"), vec![])]),
            field("hello", Some("String"), vec![]),
        ],
        vec![],
    );
    let m = cost_map(&[("Query.__schema", 100), ("__Schema.types", 100), ("Query.hello", 3)]);
    assert_eq!(document_cost(&doc, &m, None), Ok(Cost::new(3)));
}

#[test]
fn inline_fragment_without_condition_keeps_parent() {
    let doc = query_doc(
        vec![SelectionNode::InlineFragment {
            type_condition: None,
            selections: vec![field("a", Some("String"), vec![])],
        }],
        vec![],
    );
    let m = cost_map(&[("Query.a", 6)]);
    assert_eq!(document_cost(&doc, &m, None), Ok(Cost::new(6)));
}

#[test]
fn adding_a_selection_does_not_lower_cost() {
    let sdl = "type Query { a: A b: String } type A { c: String }";
    let m = cost_map(&[("A.c", 4)]);
    let before = operation_cost(sdl, "{ a { c } }", None, &m).unwrap();
    let after = operation_cost(sdl, "{ a { c } b }", None, &m).unwrap();
    assert_eq!(before, Cost::new(5));
    assert_eq!(after, Cost::new(6));
    assert!(!before.exceeds(&after));
}

#[test]
fn repeated_calls_agree() {
    let sdl = "type Query { a: A } type A { b: String }";
    let op = "{ a { ...f } } fragment f on A { b }";
    let m = cost_map(&[("Query.a", 5), ("A.b", 8)]);
    assert_eq!(operation_cost(sdl, op, None, &m), operation_cost(sdl, op, None, &m));
}

#[test]
fn cost_map_insert_replaces() {
    let mut m = CostMap::new();
    m.insert("Query.a".to_string(), 3);
    m.insert("Query.a".to_string(), 9);
    assert_eq!(m.get(&"Query.a".to_string()), Some(9));
    assert_eq!(m.weight(&"Query.b".to_string()), 1);
    assert_eq!(m.weight(&"Query.a".to_string()), 9);
}

#[test]
fn cost_arithmetic() {
    assert_eq!(Cost::new(2).checked_add(Cost::new(3)), Some(Cost::new(5)));
    assert_eq!(Cost::new(usize::MAX).checked_add(Cost::new(1)), None);
    assert!(Cost::new(11).exceeds(&Cost::new(10)));
    assert!(!Cost::new(10).exceeds(&Cost::new(10)));
}

#[test]
fn introspection_inserted_anywhere_leaves_cost() {
    let plain = query_doc(
        vec![field("a", Some("A"), vec![field("b", Some("String"), vec![])])],
        vec![],
    );
    let with_meta = query_doc(
        vec![
            field("__type", Some("__Type"), vec![field("name", Some("String"), vec![])]),
            field(
                "a",
                Some("A"),
                vec![field("__schema", Some("__Schema"), vec![]), field("b", Some("String"), vec![])],
            ),
        ],
        vec![],
    );
    let m = cost_map(&[("Query.__type", 50), ("__Type.name", 50), ("A.__schema", 50), ("A.b", 2)]);
    assert_eq!(document_cost(&plain, &m, None), Ok(Cost::new(3)));
    assert_eq!(document_cost(&with_meta, &m, None), Ok(Cost::new(3)));
}
