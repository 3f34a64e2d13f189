//! Tests of the evaluator: whole location paths against a document, the
//! node-test filter pipeline, the error cases, and the function catalog.

use xml_dom_xpath::evaluate::{evaluate_path, EvaluationError};
use xml_dom_xpath::function::{is_function, get_function, required_functions};
use xml_dom_xpath::model::{AxisSpecifier, LocationPath, NodeTest, Step};
use xml_dom_xpath::node_set::NodeSet;
use xml_dom_xpath::parser::{read_str, ParseError};
use xml_dom_xpath::tree::{Document, NodeType};
use xml_dom_xpath::{Error, XPathObject};

/// A document whose root element is `catalog`.
fn make_test_document() -> Document {
    let mut doc = Document::new();
    doc.add_element(0, "catalog");
    doc
}

fn check_result_nodes(
    result: Result<XPathObject, EvaluationError>,
    doc: &Document,
    count: usize,
    node_type: NodeType,
) {
    assert!(result.is_ok());
    match result.unwrap() {
        XPathObject::NodeSet(node_set) => {
            assert_eq!(node_set.len(), count);
            for idx in node_set.as_slice() {
                assert_eq!(doc.node_type(*idx), node_type);
            }
        }
        _ => {
            panic!("Expecting a node set!");
        }
    }
}

// --------------------------------------------------------------------------

#[test]
fn test_document_all_self_nodes() {
    let doc = make_test_document();
    let mut xpath = LocationPath::default();
    xpath.all_self();

    let result = evaluate_path(&NodeSet::from(0), &doc, &xpath);
    check_result_nodes(result, &doc, 1, NodeType::Document);
}

#[test]
fn test_document_all_self_elements() {
    let doc = make_test_document();
    let mut xpath = LocationPath::default();
    xpath.all_self_elements();

    let result = evaluate_path(&NodeSet::from(0), &doc, &xpath);
    check_result_nodes(result, &doc, 0, NodeType::Element);
}

#[test]
fn test_document_all_child_elements() {
    let doc = make_test_document();
    let mut xpath = LocationPath::default();
    xpath.all_child_elements();

    let result = evaluate_path(&NodeSet::from(0), &doc, &xpath);
    check_result_nodes(result, &doc, 1, NodeType::Element);
}

#[test]
fn test_document_all_child_elements_named_catalog() {
    let doc = make_test_document();
    let mut xpath = LocationPath::default();
    xpath.child_elements("catalog");

    let result = evaluate_path(&NodeSet::from(0), &doc, &xpath);
    check_result_nodes(result, &doc, 1, NodeType::Element);
}

#[test]
fn test_document_all_child_elements_named_books() {
    let doc = make_test_document();
    let mut xpath = LocationPath::default();
    xpath.child_elements("books");

    let result = evaluate_path(&NodeSet::from(0), &doc, &xpath);
    check_result_nodes(result, &doc, 0, NodeType::Element);
}

// --------------------------------------------------------------------------

#[test]
fn test_init() {
    let functions = required_functions();
    for function in functions {
        println!("{}", function.to_string());
    }
}

#[test]
fn catalog_answers_names_and_signatures() {
    assert!(is_function("position"));
    assert!(is_function("last"));
    assert!(is_function("translate"));
    assert!(!is_function("positron"));
    assert!(!is_function(""));
    let f = get_function("translate").unwrap();
    assert_eq!(f.name, "translate");
    assert_eq!(f.arguments.len(), 3);
    assert!(get_function("bogus").is_none());
    assert_eq!(required_functions().len(), 27);
    assert_eq!(
        get_function("last").unwrap().to_string(),
        "fn last() -> Num;"
    );
    assert_eq!(
        get_function("substring").unwrap().to_string(),
        "fn substring(string: &str, start: Num, length: Option<Num>) -> &str;"
    );
}

// --------------------------------------------------------------------------

/// The node-test filtering scenario: `child::chapter` against a document
/// root with children `[book-metadata (a text node), chapter, chapter]`
/// keeps only the two elements named `chapter`, in document order.
#[test]
fn node_test_filters_by_type_and_name() {
    let mut doc = Document::new();
    let root = doc.add_element(0, "book");
    let _metadata = doc.add_text(root);
    let ch_b = doc.add_element(root, "chapter");
    let ch_e = doc.add_element(root, "chapter");
    let mut xpath = LocationPath::default();
    xpath.child_elements("chapter");

    let result = evaluate_path(&NodeSet::from(root), &doc, &xpath);
    match result.unwrap() {
        XPathObject::NodeSet(ns) => assert_eq!(ns.as_slice(), &[ch_b, ch_e][..]),
        _ => panic!("Expecting a node set!"),
    }
}

#[test]
fn steps_chain_left_to_right() {
    // /child::book/child::chapter: the second step reads the first step's
    // filtered result, not the initial context
    let mut doc = Document::new();
    let root = doc.add_element(0, "book");
    let ch1 = doc.add_element(root, "chapter");
    let ch2 = doc.add_element(root, "chapter");
    let mut xpath = LocationPath::root();
    xpath.child_elements("book");
    xpath.child_elements("chapter");

    let result = evaluate_path(&NodeSet::from(ch1), &doc, &xpath);
    match result.unwrap() {
        XPathObject::NodeSet(ns) => assert_eq!(ns.as_slice(), &[ch1, ch2][..]),
        _ => panic!("Expecting a node set!"),
    }
}

#[test]
fn absolute_path_over_the_document_node_is_empty() {
    // the document node has no owning document, so an absolute path
    // starting there selects nothing
    let doc = make_test_document();
    let mut xpath = LocationPath::root();
    xpath.all_child_elements();
    let result = evaluate_path(&NodeSet::from(0), &doc, &xpath);
    match result.unwrap() {
        XPathObject::NodeSet(ns) => assert!(ns.is_empty()),
        _ => panic!("Expecting a node set!"),
    }
}

#[test]
fn malformed_documents_are_reported() {
    // a parent/child cycle fabricated directly in the arena
    let mut doc = make_test_document();
    doc.nodes[1].children.push(0);
    let xpath = LocationPath::default();
    let result = evaluate_path(&NodeSet::from(0), &doc, &xpath);
    assert_eq!(result.unwrap_err(), EvaluationError::CycleError);

    // a context node outside the arena
    let doc = make_test_document();
    let result = evaluate_path(&NodeSet::from(99), &doc, &xpath);
    assert_eq!(result.unwrap_err(), EvaluationError::CycleError);
}

#[test]
fn read_str_reports_every_input_unparsed() {
    assert_eq!(read_str("").unwrap_err(), ParseError::EmptyString);
    assert_eq!(read_str("child::para").unwrap_err(), ParseError::EmptyString);
}

#[test]
fn version_is_xpath_one() {
    assert_eq!(xml_dom_xpath::XPATH_VERSION, "1.0");
}

#[test]
fn error_messages() {
    assert_eq!(
        EvaluationError::CycleError.to_string(),
        "A cycle was detected in the expression axis."
    );
    assert_eq!(ParseError::EmptyString.to_string(), "The path string is empty");
    assert_eq!(
        Error::Parse(ParseError::EmptyString).to_string(),
        "The path string is empty"
    );
    assert_eq!(
        Error::Evaluate(EvaluationError::CycleError).to_string(),
        "A cycle was detected in the expression axis."
    );
}

#[test]
fn attribute_axis_steps_use_the_attribute_principal_type() {
    let mut doc = Document::new();
    let root = doc.add_element(0, "book");
    let title = doc.add_attribute(root, "title");
    let lang = doc.add_attribute(root, "xml:lang");
    let ns = doc.add_attribute(root, "xmlns:dc");

    // attribute::* keeps the non-namespace attributes
    let mut xpath = LocationPath::default();
    xpath.append(Step::new_from(AxisSpecifier::Attribute, NodeTest::All));
    match evaluate_path(&NodeSet::from(root), &doc, &xpath).unwrap() {
        XPathObject::NodeSet(result) => assert_eq!(result.as_slice(), &[title, lang][..]),
        _ => panic!("Expecting a node set!"),
    }

    // attribute::title keeps only the attribute of that name
    let mut xpath = LocationPath::default();
    xpath.append(Step::new_from(
        AxisSpecifier::Attribute,
        NodeTest::Named("title".to_string()),
    ));
    match evaluate_path(&NodeSet::from(root), &doc, &xpath).unwrap() {
        XPathObject::NodeSet(result) => assert_eq!(result.as_slice(), &[title][..]),
        _ => panic!("Expecting a node set!"),
    }

    // namespace::* would keep the namespace declaration, but under the
    // element principal type the node test `*` rejects attribute nodes
    let mut xpath = LocationPath::default();
    xpath.append(Step::new_from(AxisSpecifier::Namespace, NodeTest::All));
    match evaluate_path(&NodeSet::from(root), &doc, &xpath).unwrap() {
        XPathObject::NodeSet(result) => assert!(result.is_empty()),
        _ => panic!("Expecting a node set!"),
    }
    // while namespace::node() keeps it
    let mut xpath = LocationPath::default();
    xpath.append(Step::new_from(AxisSpecifier::Namespace, NodeTest::Node));
    match evaluate_path(&NodeSet::from(root), &doc, &xpath).unwrap() {
        XPathObject::NodeSet(result) => assert_eq!(result.as_slice(), &[ns][..]),
        _ => panic!("Expecting a node set!"),
    }
}

#[test]
fn node_type_tests_match_regardless_of_principal_type() {
    let mut doc = Document::new();
    let root = doc.add_element(0, "book");
    let text = doc.add_text(root);
    let comment = doc.add_comment(root);
    let pi = doc.add_processing_instruction(root, "xml-stylesheet");
    let chapter = doc.add_element(root, "chapter");

    let cases: Vec<(NodeTest, Vec<usize>)> = vec![
        (NodeTest::Text, vec![text]),
        (NodeTest::Comment, vec![comment]),
        (NodeTest::ProcessingInstruction(None), vec![pi]),
        (
            NodeTest::ProcessingInstruction(Some("xml-stylesheet".to_string())),
            vec![pi],
        ),
        (
            NodeTest::ProcessingInstruction(Some("other".to_string())),
            vec![],
        ),
        (NodeTest::Node, vec![text, comment, pi, chapter]),
        (NodeTest::All, vec![chapter]),
    ];
    for (test, expected) in cases {
        let mut xpath = LocationPath::default();
        xpath.append(Step::new_from(AxisSpecifier::Child, test));
        match evaluate_path(&NodeSet::from(root), &doc, &xpath).unwrap() {
            XPathObject::NodeSet(result) => assert_eq!(result.as_slice(), &expected[..]),
            _ => panic!("Expecting a node set!"),
        }
    }
}
