use operation_limits::compiler::operation_depth;
use operation_limits::depth::document_depth;
use operation_limits::document::{Document, Fragment, Operation, OperationKind, SelectionNode};
use operation_limits::error::AnalysisError;

#[test]
fn basic() {
    let doc = Document::parse(&String::from("{ hello { world } }")).unwrap();
    let operation = doc.operations.first().expect("operation missing");
    let depth = operation.max_depth(&doc).unwrap();
    assert_eq!(depth, 2);
}

#[test]
fn inline_fragments() {
    let op = &String::from(
        "
{
  a {
    ... on B {
      c
      d {
        e
      }
    }
  }
}",
    );
    let doc = Document::parse(op).unwrap();
    let operation = doc.operations.first().expect("operation missing");
    let depth = operation.max_depth(&doc).unwrap();
    assert_eq!(depth, 4);
}

#[test]
fn named_fragments() {
    let op = &String::from(
        "
fragment f on B {
  c
  d {
    e
  }
}

{
  a {
    ...f
  }
}",
    );
    let doc = Document::parse(op).unwrap();
    let operation = doc.operations.first().expect("operation missing");
    let depth = operation.max_depth(&doc).unwrap();
    assert_eq!(depth, 4);
}

#[test]
fn depth_of_nested_fields() {
    assert_eq!(operation_depth("{ hello { world } }", None), Ok(2));
}

#[test]
fn depth_through_inline_fragment() {
    assert_eq!(operation_depth("{ a { ... on B { c d { e } } } }", None), Ok(4));
}

#[test]
fn depth_through_named_fragment() {
    assert_eq!(operation_depth("fragment f on B { c d { e } } { a { ...f } }", None), Ok(4));
}

#[test]
fn depth_of_empty_selection_is_zero() {
    let doc = Document {
        operations: vec![Operation { name: None, kind: OperationKind::Query, selections: vec![] }],
        fragments: vec![],
        object_types: vec![],
    };
    assert_eq!(document_depth(&doc, None), Ok(0));
}

#[test]
fn unknown_fragment_adds_no_depth() {
    assert_eq!(operation_depth("{ a { ...nowhere } }", None), Ok(1));
}

#[test]
fn depth_ambiguous_operation() {
    assert_eq!(operation_depth("query A { a } query B { b { c } }", None), Err(AnalysisError::MissingOperation));
    assert_eq!(operation_depth("query A { a } query B { b { c } }", Some("B")), Ok(2));
}

#[test]
fn depth_fragment_cycle() {
    let doc = Document {
        operations: vec![Operation {
            name: None,
            kind: OperationKind::Query,
            selections: vec![SelectionNode::FragmentSpread { name: "f".to_string() }],
        }],
        fragments: vec![
            Fragment {
                name: "f".to_string(),
                type_condition: "A".to_string(),
                selections: vec![SelectionNode::FragmentSpread { name: "g".to_string() }],
            },
            Fragment {
                name: "g".to_string(),
                type_condition: "A".to_string(),
                selections: vec![SelectionNode::FragmentSpread { name: "f".to_string() }],
            },
        ],
        object_types: vec![],
    };
    assert_eq!(document_depth(&doc, None), Err(AnalysisError::FragmentCycle));
}

#[test]
fn introspection_counts_for_depth() {
    let doc = Document {
        operations: vec![Operation {
            name: None,
            kind: OperationKind::Query,
            selections: vec![SelectionNode::Field {
                name: "__schema".to_string(),
                ty: Some("__Schema".to_string()),
                selections: vec![SelectionNode::Field {
                    name: "types".to_string(),
                    ty: Some("__Type".to_string()),
                    selections: vec![],
                }],
            }],
        }],
        fragments: vec![],
        object_types: vec!["Query".to_string()],
    };
    assert_eq!(document_depth(&doc, None), Ok(2));
}

#[test]
fn adding_a_selection_does_not_lower_depth() {
    assert_eq!(operation_depth("{ a { b } }", None), Ok(2));
    assert_eq!(operation_depth("{ a { b } c }", None), Ok(2));
    assert_eq!(operation_depth("{ a { b { d } } c }", None), Ok(3));
}

#[test]
fn repeated_depth_calls_agree() {
    let op = "fragment f on B { c d { e } } { a { ...f } }";
    assert_eq!(operation_depth(op, None), operation_depth(op, None));
}

#[test]
fn renamed_introspection_field_keeps_depth() {
    let doc = |name: &str, ty: &str| Document {
        operations: vec![Operation {
            name: None,
            kind: OperationKind::Query,
            selections: vec![SelectionNode::Field {
                name: "a".to_string(),
                ty: Some("A".to_string()),
                selections: vec![SelectionNode::Field {
                    name: name.to_string(),
                    ty: Some(ty.to_string()),
                    selections: vec![SelectionNode::Field {
                        name: "kind".to_string(),
                        ty: Some("String".to_string()),
                        selections: vec![],
                    }],
                }],
            }],
        }],
        fragments: vec![],
        object_types: vec!["Query".to_string()],
    };
    assert_eq!(document_depth(&doc("__type", "__Type"), None), Ok(3));
    assert_eq!(document_depth(&doc("plain", "Plain"), None), Ok(3));
}

#[test]
fn nesting_limit_counts_selection_sets() {
    let doc = Document::parse("{ a { b { c } } d } fragment f on T { x { y } }").unwrap();
    assert!(doc.nests_within(3));
    assert!(!doc.nests_within(2));
    let flat = Document::parse("{ a ...f } fragment f on T { x }").unwrap();
    assert!(flat.nests_within(1));
    assert!(!flat.nests_within(0));
}
