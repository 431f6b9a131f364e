use schema_xml::decode::{decode_leaf, Decimal, LeafKind, Scalar};
use schema_xml::dispatch::dispatch;
use schema_xml::document::{Document, Item};
use schema_xml::engine::{parse_alternative, parse_document, parse_element};
use schema_xml::error::{Error, ErrorKind};
use schema_xml::event::{Attribute, Event, Located, Position};
use schema_xml::schema::{
    AttributeSlot, ChildSlot, ConfigurationError, ElementSchema, Occurrence, SchemaSet, Target,
    TextSlot,
};

fn at(line: u64, event: Event) -> Located {
    Located { event, position: Position { line, column: 1 } }
}

fn start(line: u64, name: &str, attrs: &[(&str, &str)]) -> Located {
    at(
        line,
        Event::Start {
            name: name.to_string(),
            attributes: attrs
                .iter()
                .map(|(n, v)| Attribute { name: n.to_string(), value: v.to_string() })
                .collect(),
        },
    )
}

fn end(line: u64) -> Located {
    at(line, Event::End)
}

fn text(line: u64, t: &str) -> Located {
    at(line, Event::Text { text: t.to_string() })
}

fn attr_slot(name: &str, occurrence: Occurrence, kind: LeafKind) -> AttributeSlot {
    AttributeSlot { name: name.to_string(), occurrence, kind }
}

fn child_slot(name: &str, occurrence: Occurrence, target: Target) -> ChildSlot {
    ChildSlot { name: name.to_string(), occurrence, target }
}

fn element(name: &str, attributes: Vec<AttributeSlot>, children: Vec<ChildSlot>) -> ElementSchema {
    ElementSchema { name: name.to_string(), attributes, children, text: None, stub: false }
}

fn decimal(negative: bool, mantissa: u64, scale: u32) -> Scalar {
    Scalar::Decimal(Decimal { negative, mantissa, scale })
}

fn s(t: &str) -> Scalar {
    Scalar::Text(t.to_string())
}

/// Schema `foo`: required attribute `id` (text) and optional child `bar` (decimal).
fn foo_set() -> SchemaSet {
    SchemaSet {
        elements: vec![element(
            "foo",
            vec![attr_slot("id", Occurrence::Required, LeafKind::Text)],
            vec![child_slot("bar", Occurrence::Optional, Target::Leaf(LeafKind::Decimal))],
        )],
        groups: vec![],
    }
}

fn root(doc: &Document) -> &schema_xml::document::Node {
    doc.nodes.last().unwrap()
}

fn parse(set: &SchemaSet, events: &Vec<Located>) -> Result<Document, Error> {
    assert!(set.check().is_ok());
    parse_document(set, 0, events, 64)
}

#[test]
fn foo_with_id_and_bar() {
    let events = vec![start(1, "foo", &[("id", "x1")]), start(1, "bar", &[]), text(1, "3.14"), end(1), end(1)];
    let doc = parse(&foo_set(), &events).unwrap();
    let node = root(&doc);
    assert_eq!(node.schema, 0);
    assert_eq!(node.attributes, vec![Some(s("x1"))]);
    assert_eq!(node.children, vec![vec![Item::Leaf(decimal(false, 314, 2))]]);
}

#[test]
fn foo_without_id_is_missing_attribute() {
    let events = vec![start(1, "foo", &[]), start(1, "bar", &[]), text(1, "3.14"), end(1), end(1)];
    let err = parse(&foo_set(), &events).unwrap_err();
    assert_eq!(
        err.kind,
        ErrorKind::MissingAttribute { element: "foo".to_string(), attribute: "id".to_string() }
    );
    assert_eq!(err.position, Position { line: 1, column: 1 });
}

#[test]
fn foo_with_extra_attribute_is_unexpected() {
    let events = vec![start(1, "foo", &[("id", "x1"), ("extra", "y")]), end(1)];
    let err = parse(&foo_set(), &events).unwrap_err();
    assert_eq!(
        err.kind,
        ErrorKind::UnexpectedAttribute {
            element: "foo".to_string(),
            attribute: "extra".to_string(),
            expected: vec!["id".to_string()],
        }
    );
}

#[test]
fn unexpected_attribute_lists_all_names_in_declared_order() {
    let set = SchemaSet {
        elements: vec![element(
            "e",
            vec![
                attr_slot("b", Occurrence::Optional, LeafKind::Text),
                attr_slot("a", Occurrence::Optional, LeafKind::Text),
            ],
            vec![],
        )],
        groups: vec![],
    };
    let events = vec![start(1, "e", &[("a", "1"), ("zzz", "2"), ("b", "3")]), end(1)];
    let err = parse(&set, &events).unwrap_err();
    assert_eq!(
        err.kind,
        ErrorKind::UnexpectedAttribute {
            element: "e".to_string(),
            attribute: "zzz".to_string(),
            expected: vec!["b".to_string(), "a".to_string()],
        }
    );
}

#[test]
fn missing_attribute_names_the_first_required_one() {
    let set = SchemaSet {
        elements: vec![element(
            "e",
            vec![
                attr_slot("a", Occurrence::Required, LeafKind::Text),
                attr_slot("b", Occurrence::Required, LeafKind::Text),
                attr_slot("c", Occurrence::Required, LeafKind::Text),
            ],
            vec![],
        )],
        groups: vec![],
    };
    let events = vec![start(1, "e", &[("a", "1")]), end(2)];
    let err = parse(&set, &events).unwrap_err();
    assert_eq!(
        err.kind,
        ErrorKind::MissingAttribute { element: "e".to_string(), attribute: "b".to_string() }
    );
}

fn defaulted_set() -> SchemaSet {
    SchemaSet {
        elements: vec![element(
            "e",
            vec![
                attr_slot("count", Occurrence::OptionalWithDefault(Scalar::Unsigned(7)), LeafKind::Unsigned),
                attr_slot("label", Occurrence::with_type_default(LeafKind::Text), LeafKind::Text),
            ],
            vec![],
        )],
        groups: vec![],
    }
}

#[test]
fn absent_defaulted_attribute_takes_default() {
    let events = vec![start(1, "e", &[]), end(1)];
    let doc = parse(&defaulted_set(), &events).unwrap();
    assert_eq!(root(&doc).attributes, vec![Some(Scalar::Unsigned(7)), Some(s(""))]);
}

#[test]
fn present_defaulted_attribute_takes_decoded_value() {
    let events = vec![start(1, "e", &[("count", "42"), ("label", "hi")]), end(1)];
    let doc = parse(&defaulted_set(), &events).unwrap();
    assert_eq!(root(&doc).attributes, vec![Some(Scalar::Unsigned(42)), Some(s("hi"))]);
}

#[test]
fn attribute_that_does_not_decode_fails() {
    let events = vec![start(3, "e", &[("count", "4x2")]), end(3)];
    let err = parse(&defaulted_set(), &events).unwrap_err();
    assert_eq!(err.kind, ErrorKind::ValueDecode { text: "4x2".to_string(), kind: LeafKind::Unsigned });
    assert_eq!(err.position.line, 3);
}

fn list_set(occurrence: Occurrence) -> SchemaSet {
    SchemaSet {
        elements: vec![element(
            "list",
            vec![],
            vec![child_slot("item", occurrence, Target::Leaf(LeafKind::Unsigned))],
        )],
        groups: vec![],
    }
}

#[test]
fn many_slot_keeps_document_order() {
    let events = vec![
        start(1, "list", &[]),
        start(1, "item", &[]),
        text(1, "1"),
        end(1),
        start(1, "item", &[]),
        text(1, "2"),
        end(1),
        end(1),
    ];
    let doc = parse(&list_set(Occurrence::OptionalMany), &events).unwrap();
    assert_eq!(
        root(&doc).children,
        vec![vec![Item::Leaf(Scalar::Unsigned(1)), Item::Leaf(Scalar::Unsigned(2))]]
    );
}

#[test]
fn many_slot_keeps_duplicates() {
    let events = vec![
        start(1, "list", &[]),
        start(1, "item", &[]),
        text(1, "5"),
        end(1),
        start(1, "item", &[]),
        text(1, "5"),
        end(1),
        end(1),
    ];
    let doc = parse(&list_set(Occurrence::OptionalMany), &events).unwrap();
    assert_eq!(root(&doc).children[0].len(), 2);
}

#[test]
fn empty_optional_many_is_accepted() {
    let events = vec![start(1, "list", &[]), end(1)];
    let doc = parse(&list_set(Occurrence::OptionalMany), &events).unwrap();
    assert_eq!(root(&doc).children, vec![Vec::<Item>::new()]);
}

#[test]
fn empty_required_many_is_missing_child() {
    let events = vec![start(1, "list", &[]), end(2)];
    let err = parse(&list_set(Occurrence::RequiredMany), &events).unwrap_err();
    assert_eq!(
        err.kind,
        ErrorKind::MissingChild { element: "list".to_string(), child: "item".to_string() }
    );
    assert_eq!(err.position.line, 2);
}

#[test]
fn singular_slot_keeps_the_last_match() {
    let events = vec![
        start(1, "list", &[]),
        start(1, "item", &[]),
        text(1, "1"),
        end(1),
        start(1, "item", &[]),
        text(1, "2"),
        end(1),
        end(1),
    ];
    let doc = parse(&list_set(Occurrence::Required), &events).unwrap();
    assert_eq!(root(&doc).children, vec![vec![Item::Leaf(Scalar::Unsigned(2))]]);
}

#[test]
fn missing_required_child() {
    let events = vec![start(1, "list", &[]), end(4)];
    let err = parse(&list_set(Occurrence::Required), &events).unwrap_err();
    assert_eq!(
        err.kind,
        ErrorKind::MissingChild { element: "list".to_string(), child: "item".to_string() }
    );
    assert_eq!(err.position.line, 4);
}

#[test]
fn unexpected_child_lists_expected_names() {
    let events = vec![start(1, "list", &[]), start(2, "other", &[]), end(2), end(3)];
    let err = parse(&list_set(Occurrence::OptionalMany), &events).unwrap_err();
    assert_eq!(
        err.kind,
        ErrorKind::UnexpectedElement {
            element: "list".to_string(),
            found: "other".to_string(),
            expected: vec!["item".to_string()],
        }
    );
    assert_eq!(err.position.line, 2);
}

#[test]
fn leaf_child_with_attribute_is_rejected() {
    let events = vec![start(1, "list", &[]), start(1, "item", &[("x", "1")]), text(1, "1"), end(1), end(1)];
    let err = parse(&list_set(Occurrence::OptionalMany), &events).unwrap_err();
    assert_eq!(
        err.kind,
        ErrorKind::UnexpectedAttribute {
            element: "item".to_string(),
            attribute: "x".to_string(),
            expected: vec![],
        }
    );
}

#[test]
fn text_without_text_slot_is_rejected_and_blank_text_ignored() {
    let events = vec![start(1, "list", &[]), text(1, " \n\t "), end(1)];
    assert!(parse(&list_set(Occurrence::OptionalMany), &events).is_ok());
    let events = vec![start(1, "list", &[]), text(5, "words"), end(6)];
    let err = parse(&list_set(Occurrence::OptionalMany), &events).unwrap_err();
    assert_eq!(err.kind, ErrorKind::UnexpectedText { element: "list".to_string() });
    assert_eq!(err.position.line, 5);
}

#[test]
fn events_ending_early_fail() {
    let events = vec![start(1, "list", &[]), start(2, "item", &[]), text(3, "1")];
    let err = parse(&list_set(Occurrence::OptionalMany), &events).unwrap_err();
    assert_eq!(err.kind, ErrorKind::UnexpectedEnd);
    assert_eq!(err.position.line, 3);
}

#[test]
fn first_event_must_be_a_start_tag() {
    let events = vec![end(1)];
    let err = parse(&list_set(Occurrence::OptionalMany), &events).unwrap_err();
    assert_eq!(err.kind, ErrorKind::NotAStartTag);
    let err = parse(&list_set(Occurrence::OptionalMany), &vec![]).unwrap_err();
    assert_eq!(err.kind, ErrorKind::UnexpectedEnd);
    assert_eq!(err.position, Position { line: 0, column: 0 });
}

/// `scene` holds any number of shapes from group 0: `a` (schema 1) or `b` (schema 2).
fn group_set(second_name: &str) -> SchemaSet {
    SchemaSet {
        elements: vec![
            element("scene", vec![], vec![child_slot("shapes", Occurrence::OptionalMany, Target::Group(0))]),
            element("a", vec![], vec![]),
            element(second_name, vec![], vec![]),
        ],
        groups: vec![vec![1, 2]],
    }
}

#[test]
fn dispatcher_selects_matching_alternative() {
    let set = group_set("b");
    assert_eq!(dispatch(&set, 0, &"b".to_string()), Some(2));
    assert_eq!(dispatch(&set, 0, &"a".to_string()), Some(1));
    assert_eq!(dispatch(&set, 0, &"c".to_string()), None);
    let events = vec![start(1, "scene", &[]), start(2, "b", &[]), end(2), start(3, "a", &[]), end(3), end(4)];
    let doc = parse(&set, &events).unwrap();
    assert_eq!(doc.nodes.len(), 3);
    assert_eq!(doc.nodes[0].schema, 2);
    assert_eq!(doc.nodes[1].schema, 1);
    assert_eq!(root(&doc).children, vec![vec![Item::Node(0), Item::Node(1)]]);
}

#[test]
fn dispatcher_tie_goes_to_first_alternative() {
    let set = group_set("a");
    assert_eq!(dispatch(&set, 0, &"a".to_string()), Some(1));
}

#[test]
fn unexpected_element_in_group_slot_lists_alternatives() {
    let set = group_set("b");
    let events = vec![start(1, "scene", &[]), start(2, "c", &[]), end(2), end(3)];
    let err = parse(&set, &events).unwrap_err();
    assert_eq!(
        err.kind,
        ErrorKind::UnexpectedElement {
            element: "scene".to_string(),
            found: "c".to_string(),
            expected: vec!["a".to_string(), "b".to_string()],
        }
    );
}

#[test]
fn parsing_twice_gives_equal_results() {
    let events = vec![start(1, "foo", &[("id", "x1")]), start(1, "bar", &[]), text(1, "3.14"), end(1), end(1)];
    assert_eq!(parse(&foo_set(), &events), parse(&foo_set(), &events));
    let bad = vec![start(1, "foo", &[]), end(2)];
    assert_eq!(parse(&foo_set(), &bad), parse(&foo_set(), &bad));
}

#[test]
fn stub_skips_its_subtree() {
    let set = SchemaSet {
        elements: vec![
            element("outer", vec![], vec![child_slot("later", Occurrence::Required, Target::Element(1))]),
            ElementSchema { name: "later".to_string(), attributes: vec![], children: vec![], text: None, stub: true },
        ],
        groups: vec![],
    };
    let events = vec![
        start(1, "outer", &[]),
        start(2, "later", &[("any", "thing")]),
        start(3, "deep", &[]),
        text(3, "ignored"),
        start(4, "deeper", &[]),
        end(4),
        end(5),
        end(6),
        end(7),
    ];
    let doc = parse(&set, &events).unwrap();
    assert_eq!(doc.nodes.len(), 2);
    assert_eq!(doc.nodes[0].schema, 1);
    assert!(doc.nodes[0].children.is_empty());
}

#[test]
fn nesting_deeper_than_allowed_fails() {
    let set = SchemaSet {
        elements: vec![element(
            "n",
            vec![],
            vec![child_slot("n", Occurrence::Optional, Target::Element(0))],
        )],
        groups: vec![],
    };
    let events = vec![start(1, "n", &[]), start(2, "n", &[]), start(3, "n", &[]), end(3), end(2), end(1)];
    assert!(parse_document(&set, 0, &events, 2).is_ok());
    let err = parse_document(&set, 0, &events, 1).unwrap_err();
    assert_eq!(err.kind, ErrorKind::DepthExceeded);
    assert_eq!(err.position.line, 3);
}

#[test]
fn parse_element_consumes_exactly_its_events() {
    let set = list_set(Occurrence::OptionalMany);
    let events = vec![start(1, "list", &[]), start(1, "item", &[]), text(1, "9"), end(1), end(1), start(2, "list", &[]), end(2)];
    let mut nodes = Vec::new();
    assert_eq!(parse_element(&set, 0, &events, 0, 8, &mut nodes), Ok(5));
    assert_eq!(parse_element(&set, 0, &events, 5, 8, &mut nodes), Ok(7));
    assert_eq!(nodes.len(), 2);
}

#[test]
fn text_slot_decodes_content() {
    let set = SchemaSet {
        elements: vec![ElementSchema {
            name: "v".to_string(),
            attributes: vec![],
            children: vec![],
            text: Some(TextSlot { occurrence: Occurrence::Required, kind: LeafKind::Decimal }),
            stub: false,
        }],
        groups: vec![],
    };
    let doc = parse(&set, &vec![start(1, "v", &[]), text(1, "-0.5"), end(1)]).unwrap();
    assert_eq!(root(&doc).text, vec![decimal(true, 5, 1)]);
    let err = parse(&set, &vec![start(1, "v", &[]), end(2)]).unwrap_err();
    assert_eq!(err.kind, ErrorKind::MissingText { element: "v".to_string() });
}

#[test]
fn decoding_leaf_values() {
    assert_eq!(decode_leaf(LeafKind::Unsigned, &"0".to_string()), Some(Scalar::Unsigned(0)));
    assert_eq!(
        decode_leaf(LeafKind::Unsigned, &"18446744073709551615".to_string()),
        Some(Scalar::Unsigned(u64::MAX))
    );
    assert_eq!(decode_leaf(LeafKind::Unsigned, &"18446744073709551616".to_string()), None);
    assert_eq!(decode_leaf(LeafKind::Unsigned, &"".to_string()), None);
    assert_eq!(decode_leaf(LeafKind::Unsigned, &"-1".to_string()), None);
    assert_eq!(decode_leaf(LeafKind::Decimal, &"3.14".to_string()), Some(decimal(false, 314, 2)));
    assert_eq!(decode_leaf(LeafKind::Decimal, &"+12".to_string()), Some(decimal(false, 12, 0)));
    assert_eq!(decode_leaf(LeafKind::Decimal, &"-007.250".to_string()), Some(decimal(true, 7250, 3)));
    assert_eq!(decode_leaf(LeafKind::Decimal, &"1.".to_string()), None);
    assert_eq!(decode_leaf(LeafKind::Decimal, &".5".to_string()), None);
    assert_eq!(decode_leaf(LeafKind::Decimal, &"1.2.3".to_string()), None);
    assert_eq!(decode_leaf(LeafKind::Decimal, &"-".to_string()), None);
    assert_eq!(decode_leaf(LeafKind::Text, &" a b ".to_string()), Some(s(" a b ")));
}

fn array_set(occurrence: Occurrence, kind: LeafKind) -> SchemaSet {
    SchemaSet {
        elements: vec![ElementSchema {
            name: "float_array".to_string(),
            attributes: vec![attr_slot("count", Occurrence::Required, LeafKind::Unsigned)],
            children: vec![],
            text: Some(TextSlot { occurrence, kind }),
            stub: false,
        }],
        groups: vec![],
    }
}

#[test]
fn repeated_text_slot_splits_words() {
    let set = array_set(Occurrence::OptionalMany, LeafKind::Decimal);
    let events = vec![start(1, "float_array", &[("count", "3")]), text(1, " 1.5\n-2\t0.25 "), end(1)];
    let doc = parse(&set, &events).unwrap();
    let node = root(&doc);
    assert_eq!(node.attributes, vec![Some(Scalar::Unsigned(3))]);
    assert_eq!(node.text, vec![decimal(false, 15, 1), decimal(true, 2, 0), decimal(false, 25, 2)]);
}

#[test]
fn repeated_text_slot_with_bad_word_fails() {
    let set = array_set(Occurrence::OptionalMany, LeafKind::Unsigned);
    let events = vec![start(1, "float_array", &[("count", "2")]), text(2, "1 x"), end(2)];
    let err = parse(&set, &events).unwrap_err();
    assert_eq!(err.kind, ErrorKind::ValueDecode { text: "1 x".to_string(), kind: LeafKind::Unsigned });
    assert_eq!(err.position.line, 2);
}

#[test]
fn required_many_text_must_be_present() {
    let set = array_set(Occurrence::RequiredMany, LeafKind::Unsigned);
    let events = vec![start(1, "float_array", &[("count", "0")]), text(1, "   "), end(1)];
    let err = parse(&set, &events).unwrap_err();
    assert_eq!(err.kind, ErrorKind::MissingText { element: "float_array".to_string() });
}

#[test]
fn schema_defects_are_configuration_errors() {
    let duplicate = SchemaSet {
        elements: vec![element(
            "e",
            vec![
                attr_slot("a", Occurrence::Optional, LeafKind::Text),
                attr_slot("a", Occurrence::Optional, LeafKind::Unsigned),
            ],
            vec![],
        )],
        groups: vec![],
    };
    assert_eq!(duplicate.check(), Err(ConfigurationError::Element { element: 0 }));
    let repeated_attribute = SchemaSet {
        elements: vec![element("e", vec![attr_slot("a", Occurrence::OptionalMany, LeafKind::Text)], vec![])],
        groups: vec![],
    };
    assert_eq!(repeated_attribute.check(), Err(ConfigurationError::Element { element: 0 }));
    let wrong_default = SchemaSet {
        elements: vec![element(
            "e",
            vec![attr_slot("a", Occurrence::OptionalWithDefault(Scalar::Unsigned(1)), LeafKind::Text)],
            vec![],
        )],
        groups: vec![],
    };
    assert_eq!(wrong_default.check(), Err(ConfigurationError::Element { element: 0 }));
    let unknown_target = SchemaSet {
        elements: vec![element("e", vec![], vec![child_slot("c", Occurrence::Optional, Target::Element(5))])],
        groups: vec![],
    };
    assert_eq!(unknown_target.check(), Err(ConfigurationError::Element { element: 0 }));
    let text_list = array_set(Occurrence::OptionalMany, LeafKind::Text);
    assert_eq!(text_list.check(), Err(ConfigurationError::Element { element: 0 }));
    let mut bad_group = group_set("b");
    bad_group.groups.push(vec![]);
    assert_eq!(bad_group.check(), Err(ConfigurationError::Group { group: 1 }));
    bad_group.groups[1] = vec![9];
    assert_eq!(bad_group.check(), Err(ConfigurationError::Group { group: 1 }));
    assert_eq!(group_set("b").check(), Ok(()));
}

#[test]
fn alternative_at_top_level_is_dispatched_by_tag() {
    let set = group_set("b");
    let events = vec![start(1, "b", &[]), end(1)];
    let mut nodes = Vec::new();
    assert_eq!(parse_alternative(&set, 0, &"document".to_string(), &events, 0, 8, &mut nodes), Ok(2));
    assert_eq!(nodes[0].schema, 2);
}

#[test]
fn alternative_with_unknown_tag_is_a_recoverable_error() {
    let set = group_set("b");
    let events = vec![start(7, "c", &[]), end(7)];
    let mut nodes = Vec::new();
    let err = parse_alternative(&set, 0, &"document".to_string(), &events, 0, 8, &mut nodes).unwrap_err();
    assert_eq!(
        err.kind,
        ErrorKind::UnexpectedElement {
            element: "document".to_string(),
            found: "c".to_string(),
            expected: vec!["a".to_string(), "b".to_string()],
        }
    );
    assert_eq!(err.position.line, 7);
    assert!(nodes.is_empty());
}
