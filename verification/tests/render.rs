use trigger_point::{render, render_group, FormatError, ParseError, SipHeader, TriggerPoint, SPT};

fn bare(group: u8) -> SPT {
    SPT {
        condition_negated: None,
        group,
        method: None,
        extension: None,
        session_case: None,
        request_uri: None,
        sip_header: None,
    }
}

fn with_method(group: u8, method: &str) -> SPT {
    let mut spt = bare(group);
    spt.method = Some(method.to_string());
    spt
}

fn example_conditions() -> Vec<SPT> {
    let mut originated = bare(1);
    originated.session_case = Some(0);
    let mut not_uri = bare(1);
    not_uri.request_uri = Some("sip:test@example.com".to_string());
    not_uri.condition_negated = Some(1);
    vec![with_method(0, "INVITE"), originated, not_uri]
}

fn cnf(spts: Vec<SPT>) -> TriggerPoint {
    TriggerPoint { condition_type_cnf: Some(1), condition_type_dnf: None, spts }
}

fn dnf(spts: Vec<SPT>) -> TriggerPoint {
    TriggerPoint { condition_type_cnf: None, condition_type_dnf: Some(1), spts }
}

#[test]
fn end_to_end_cnf_example() {
    let doc = cnf(example_conditions());
    let expected = "(\n  (method is INVITE)\n)\nand\n(\n  (session case is mobile originated)\n  or\n  (not (request URI is sip:test@example.com))\n)";
    assert_eq!(render(&doc).unwrap(), expected);
    assert_eq!(doc.to_english(), expected);
    assert_eq!(trigger_point::render::format(Ok(doc)), Ok(expected.to_string()));
}

#[test]
fn end_to_end_example_line_by_line() {
    let doc = cnf(example_conditions());
    let text = render(&doc).unwrap();
    let lines: Vec<&str> = text.split('\n').collect();
    assert_eq!(
        lines,
        vec![
            "(",
            "  (method is INVITE)",
            ")",
            "and",
            "(",
            "  (session case is mobile originated)",
            "  or",
            "  (not (request URI is sip:test@example.com))",
            ")",
        ]
    );
}

#[test]
fn dnf_swaps_the_connectives() {
    let doc = dnf(example_conditions());
    assert_eq!(
        render(&doc).unwrap(),
        "(\n  (method is INVITE)\n)\nor\n(\n  (session case is mobile originated)\n  and\n  (not (request URI is sip:test@example.com))\n)"
    );
}

#[test]
fn no_marker_at_all_is_dnf() {
    let doc = TriggerPoint {
        condition_type_cnf: None,
        condition_type_dnf: None,
        spts: vec![with_method(0, "A"), with_method(0, "B"), with_method(1, "C")],
    };
    assert!(!doc.is_cnf());
    assert_eq!(
        render(&doc).unwrap(),
        "(\n  (method is A)\n  and\n  (method is B)\n)\nor\n(\n  (method is C)\n)"
    );
}

#[test]
fn cnf_marker_with_value_zero_is_still_cnf() {
    let doc = TriggerPoint {
        condition_type_cnf: Some(0),
        condition_type_dnf: None,
        spts: vec![with_method(0, "A"), with_method(0, "B"), with_method(1, "C")],
    };
    assert!(doc.is_cnf());
    assert_eq!(
        render(&doc).unwrap(),
        "(\n  (method is A)\n  or\n  (method is B)\n)\nand\n(\n  (method is C)\n)"
    );
}

#[test]
fn both_markers_present_is_cnf() {
    let doc = TriggerPoint {
        condition_type_cnf: Some(1),
        condition_type_dnf: Some(1),
        spts: vec![with_method(0, "A"), with_method(0, "B"), with_method(1, "C")],
    };
    assert!(doc.is_cnf());
    assert_eq!(
        render(&doc).unwrap(),
        "(\n  (method is A)\n  or\n  (method is B)\n)\nand\n(\n  (method is C)\n)"
    );
}

#[test]
fn dnf_marker_does_not_change_the_text() {
    let with_marker = TriggerPoint {
        condition_type_cnf: None,
        condition_type_dnf: Some(1),
        spts: example_conditions(),
    };
    let without_marker =
        TriggerPoint { condition_type_cnf: None, condition_type_dnf: None, spts: example_conditions() };
    assert_eq!(render(&with_marker).unwrap(), render(&without_marker).unwrap());
}

#[test]
fn rendering_twice_gives_the_same_text() {
    let doc = cnf(example_conditions());
    let first = render(&doc).unwrap();
    let second = render(&doc).unwrap();
    assert_eq!(first, second);
    assert_eq!(first.as_bytes(), second.as_bytes());
    let copy = doc.clone();
    assert_eq!(render(&copy).unwrap(), first);
}

#[test]
fn groups_come_in_ascending_numeric_order() {
    let doc = cnf(vec![
        with_method(10, "TEN"),
        with_method(2, "TWO"),
        with_method(100, "HUNDRED"),
        with_method(9, "NINE"),
    ]);
    assert_eq!(
        render(&doc).unwrap(),
        "(\n  (method is TWO)\n)\nand\n(\n  (method is NINE)\n)\nand\n(\n  (method is TEN)\n)\nand\n(\n  (method is HUNDRED)\n)"
    );
}

#[test]
fn group_order_does_not_follow_document_order() {
    let one = cnf(vec![with_method(1, "B"), with_method(0, "A")]);
    let other = cnf(vec![with_method(0, "A"), with_method(1, "B")]);
    let expected = "(\n  (method is A)\n)\nand\n(\n  (method is B)\n)";
    assert_eq!(render(&one).unwrap(), expected);
    assert_eq!(render(&other).unwrap(), expected);
}

#[test]
fn conditions_keep_document_order_inside_a_group() {
    let doc = dnf(vec![
        with_method(1, "first of one"),
        with_method(0, "first of zero"),
        with_method(1, "second of one"),
        with_method(0, "second of zero"),
        with_method(1, "third of one"),
    ]);
    assert_eq!(
        render(&doc).unwrap(),
        "(\n  (method is first of zero)\n  and\n  (method is second of zero)\n)\nor\n(\n  (method is first of one)\n  and\n  (method is second of one)\n  and\n  (method is third of one)\n)"
    );
}

#[test]
fn a_document_without_conditions_renders_empty() {
    assert_eq!(render(&cnf(Vec::new())).unwrap(), "");
    assert_eq!(render(&dnf(Vec::new())).unwrap(), "");
}

#[test]
fn a_single_condition_has_no_connective() {
    let doc = cnf(vec![with_method(4, "INVITE")]);
    assert_eq!(render(&doc).unwrap(), "(\n  (method is INVITE)\n)");
}

#[test]
fn a_condition_without_attributes_renders_empty_parentheses() {
    let mut negated = bare(0);
    negated.condition_negated = Some(1);
    let doc = cnf(vec![bare(0), negated]);
    assert_eq!(render(&doc).unwrap(), "(\n  ()\n  or\n  (not ())\n)");
}

#[test]
fn render_group_shows_only_its_members() {
    let spts = example_conditions();
    assert_eq!(render_group(&spts, 0, true), "(\n  (method is INVITE)\n)");
    assert_eq!(
        render_group(&spts, 1, true),
        "(\n  (session case is mobile originated)\n  or\n  (not (request URI is sip:test@example.com))\n)"
    );
    assert_eq!(
        render_group(&spts, 1, false),
        "(\n  (session case is mobile originated)\n  and\n  (not (request URI is sip:test@example.com))\n)"
    );
}

#[test]
fn render_group_of_an_unused_group() {
    let spts = example_conditions();
    assert_eq!(render_group(&spts, 7, true), "(\n\n)");
}

#[test]
fn conditions_with_several_attributes_in_a_document() {
    let mut first = with_method(0, "INVITE");
    first.session_case = Some(7);
    first.extension = Some(String::new());
    let mut second = bare(0);
    second.sip_header =
        Some(SipHeader { header: "Accept".to_string(), content: "application/sdp".to_string() });
    second.condition_negated = Some(1);
    let doc = dnf(vec![first, second]);
    assert_eq!(
        render(&doc).unwrap(),
        "(\n  (method is INVITE and session case is session case 7)\n  and\n  (not (\"Accept\" header with \"application/sdp\" value))\n)"
    );
}

#[test]
fn malformed_document_is_reported() {
    let result = trigger_point::render::format(Err(ParseError));
    assert_eq!(result, Err(FormatError::MalformedDocument));
}

#[test]
fn malformed_document_message() {
    assert_eq!(FormatError::MalformedDocument.message(), "failed to parse");
}

#[test]
fn format_of_a_parsed_document_is_its_rendering() {
    let doc = dnf(example_conditions());
    let rendered = render(&doc).unwrap();
    assert_eq!(trigger_point::render::format(Ok(doc)), Ok(rendered));
}

#[test]
fn format_of_an_empty_document() {
    assert_eq!(trigger_point::render::format(Ok(cnf(Vec::new()))), Ok(String::new()));
}
