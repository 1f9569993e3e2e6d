use xml_enum_decode::{
    build_plan, decode, populate, Attribute, Cardinality, DecodeError, Element, FieldDescriptor,
    FieldType, FieldValue, NamedValue, NodeElement, Shape, SourceKind, TypeDescriptor, Value,
    VariantDescriptor,
};

fn field(slot: usize, name: &str, source: SourceKind, required: bool) -> FieldDescriptor {
    FieldDescriptor {
        slot,
        name: name.to_string(),
        ordinal: slot + 1,
        source,
        required,
        target: FieldType::Leaf,
    }
}

fn typed(mut f: FieldDescriptor, target: TypeDescriptor) -> FieldDescriptor {
    f.target = FieldType::Enum(target);
    f
}

fn child(tag: &str, cardinality: Cardinality) -> SourceKind {
    SourceKind::Child(tag.to_string(), cardinality)
}

fn attribute(name: &str) -> SourceKind {
    SourceKind::Attribute(name.to_string())
}

fn unit(name: &str) -> VariantDescriptor {
    VariantDescriptor { name: name.to_string(), rename: None, shape: Shape::Unit }
}

fn colors() -> TypeDescriptor {
    TypeDescriptor { variants: vec![unit("Red"), unit("Green")] }
}

fn text(s: &str) -> Element {
    Element::Text(s.to_string())
}

fn node_of(name: &str, attributes: Vec<(&str, &str)>, children: Vec<Element>) -> NodeElement {
    NodeElement {
        name: name.to_string(),
        attributes: attributes
            .into_iter()
            .map(|(n, v)| Attribute { name: n.to_string(), value: v.to_string() })
            .collect(),
        children,
    }
}

fn node(name: &str, attributes: Vec<(&str, &str)>, children: Vec<Element>) -> Element {
    Element::Node(node_of(name, attributes, children))
}

fn leaf(s: &str) -> Value {
    Value::Leaf(s.to_string())
}

fn one(s: &str) -> FieldValue {
    FieldValue::One(leaf(s))
}

fn red() -> Value {
    Value::Unit { variant: 0, name: "Red".to_string() }
}

fn fill(n: &NodeElement, fields: Vec<FieldDescriptor>) -> Result<Vec<FieldValue>, DecodeError> {
    populate(n, &build_plan(&fields))
}

fn failed(inner: DecodeError) -> Result<Vec<FieldValue>, DecodeError> {
    Err(DecodeError::DelegateFailure(Box::new(inner)))
}

#[test]
fn required_attribute_that_is_absent_is_missing() {
    let n = node_of("p", vec![("other", "1")], vec![]);
    assert_eq!(
        fill(&n, vec![field(0, "id", attribute("id"), true)]),
        Err(DecodeError::MissingRequiredField(0))
    );
}

#[test]
fn optional_attribute_that_is_absent_is_empty() {
    let n = node_of("p", vec![("other", "1")], vec![]);
    assert_eq!(
        fill(&n, vec![field(0, "id", attribute("id"), false)]),
        Ok(vec![FieldValue::Optional(None)])
    );
}

#[test]
fn required_child_that_is_absent_is_missing() {
    let n = node_of("p", vec![], vec![text("x"), node("other", vec![], vec![])]);
    assert_eq!(
        fill(&n, vec![field(0, "x", child("x", Cardinality::Single), true)]),
        Err(DecodeError::MissingRequiredField(0))
    );
}

#[test]
fn optional_child_that_is_absent_is_empty() {
    let n = node_of("p", vec![], vec![text("x"), node("other", vec![], vec![])]);
    assert_eq!(
        fill(&n, vec![field(0, "x", child("x", Cardinality::Optional), false)]),
        Ok(vec![FieldValue::Optional(None)])
    );
}

#[test]
fn missing_field_is_reported_by_its_slot() {
    let n = node_of("p", vec![("a", "1")], vec![]);
    let fields = vec![
        field(0, "a", attribute("a"), true),
        field(1, "b", attribute("b"), false),
        field(2, "c", attribute("c"), true),
        field(3, "d", child("d", Cardinality::Single), true),
    ];
    assert_eq!(fill(&n, fields), Err(DecodeError::MissingRequiredField(2)));
}

#[test]
fn present_fields_are_bare_when_required_and_wrapped_when_not() {
    let n = node_of("p", vec![("a", "1"), ("b", "2")], vec![node("c", vec![], vec![text("3")])]);
    let fields = vec![
        field(0, "a", attribute("a"), true),
        field(1, "b", attribute("b"), false),
        field(2, "c", child("c", Cardinality::Optional), false),
    ];
    assert_eq!(
        fill(&n, fields),
        Ok(vec![
            one("1"),
            FieldValue::Optional(Some(leaf("2"))),
            FieldValue::Optional(Some(leaf("3"))),
        ])
    );
}

#[test]
fn text_field_is_never_missing() {
    let n = node_of("p", vec![], vec![]);
    assert_eq!(fill(&n, vec![field(0, "body", SourceKind::Text, true)]), Ok(vec![one("")]));
}

#[test]
fn text_field_takes_the_direct_text_only() {
    let n = node_of(
        "p",
        vec![],
        vec![
            text("ab"),
            node("inner", vec![], vec![text("deep")]),
            Element::Whitespace("  ".to_string()),
            Element::Comment("note".to_string()),
            Element::CData("raw".to_string()),
            text("cd"),
        ],
    );
    assert_eq!(n.direct_text(), "abcd");
    assert_eq!(fill(&n, vec![field(0, "body", SourceKind::Text, true)]), Ok(vec![one("abcd")]));
}

#[test]
fn first_of_two_attributes_with_one_name_wins() {
    let n = node_of("p", vec![("k", "first"), ("j", "x"), ("k", "second")], vec![]);
    assert_eq!(n.attribute(&"k".to_string()), Some(&"first".to_string()));
    assert_eq!(n.attribute(&"z".to_string()), None);
    assert_eq!(fill(&n, vec![field(0, "k", attribute("k"), true)]), Ok(vec![one("first")]));
}

#[test]
fn single_child_takes_the_first_match() {
    let n = node_of(
        "p",
        vec![],
        vec![
            node("y", vec![], vec![text("0")]),
            node("x", vec![], vec![text("1")]),
            node("x", vec![], vec![text("2")]),
        ],
    );
    assert_eq!(
        fill(&n, vec![field(0, "x", child("x", Cardinality::Single), true)]),
        Ok(vec![one("1")])
    );
    assert_eq!(
        fill(&n, vec![field(0, "x", child("x", Cardinality::Optional), false)]),
        Ok(vec![FieldValue::Optional(Some(leaf("1")))])
    );
}

#[test]
fn many_collects_every_match_in_document_order() {
    let n = node_of(
        "p",
        vec![("item", "not a child")],
        vec![
            node("item", vec![], vec![text("1")]),
            text("item"),
            node("other", vec![], vec![text("x")]),
            node("item", vec![], vec![text("2")]),
            Element::Comment("item".to_string()),
            node("Item", vec![], vec![text("y")]),
            node("item", vec![], vec![text("3")]),
        ],
    );
    let found = n.children_named(&"item".to_string());
    assert_eq!(found.len(), 3);
    assert!(std::ptr::eq(found[0], &n.children[0]));
    assert!(std::ptr::eq(found[1], &n.children[3]));
    assert!(std::ptr::eq(found[2], &n.children[6]));
    assert_eq!(
        fill(&n, vec![field(0, "items", child("item", Cardinality::Many), false)]),
        Ok(vec![FieldValue::Many(vec![leaf("1"), leaf("2"), leaf("3")])])
    );
}

#[test]
fn many_without_a_match_is_the_empty_list() {
    let n = node_of("p", vec![], vec![node("other", vec![], vec![])]);
    assert_eq!(
        fill(&n, vec![field(0, "items", child("item", Cardinality::Many), false)]),
        Ok(vec![FieldValue::Many(vec![])])
    );
    assert_eq!(
        fill(&n, vec![field(0, "items", child("item", Cardinality::Many), true)]),
        Ok(vec![FieldValue::Many(vec![])])
    );
}

#[test]
fn many_stops_at_the_first_child_that_fails() {
    let n = node_of(
        "p",
        vec![],
        vec![
            node("c", vec![], vec![]),
            node("c", vec![], vec![]),
        ],
    );
    let inner = TypeDescriptor { variants: vec![unit("c")] };
    let ok = typed(field(0, "cs", child("c", Cardinality::Many), false), inner);
    let c = Value::Unit { variant: 0, name: "c".to_string() };
    let c2 = Value::Unit { variant: 0, name: "c".to_string() };
    assert_eq!(fill(&n, vec![ok]), Ok(vec![FieldValue::Many(vec![c, c2])]));
    let bad = typed(field(0, "cs", child("c", Cardinality::Many), false), colors());
    assert_eq!(fill(&n, vec![bad]), failed(DecodeError::NoVariantMatchedNode("c".to_string())));
}

#[test]
fn attribute_of_an_enum_type_is_decoded_as_text() {
    let n = node_of("p", vec![("color", "Green"), ("shade", "Mauve")], vec![]);
    assert_eq!(
        fill(&n, vec![typed(field(0, "color", attribute("color"), true), colors())]),
        Ok(vec![FieldValue::One(Value::Unit { variant: 1, name: "Green".to_string() })])
    );
    assert_eq!(
        fill(&n, vec![typed(field(0, "shade", attribute("shade"), true), colors())]),
        failed(DecodeError::NoVariantMatchedText)
    );
}

#[test]
fn text_of_an_enum_type_is_decoded_as_text() {
    let n = node_of("p", vec![], vec![text("R"), node("x", vec![], vec![]), text("ed")]);
    assert_eq!(
        fill(&n, vec![typed(field(0, "color", SourceKind::Text, true), colors())]),
        Ok(vec![FieldValue::One(red())])
    );
}

#[test]
fn flatten_reads_the_node_that_its_siblings_read() {
    let n = node_of("Red", vec![("id", "7")], vec![node("note", vec![], vec![text("n")])]);
    let with_flatten = vec![
        field(0, "id", attribute("id"), true),
        typed(field(1, "color", SourceKind::Flatten, true), colors()),
        field(2, "note", child("note", Cardinality::Single), true),
    ];
    assert_eq!(fill(&n, with_flatten), Ok(vec![one("7"), FieldValue::One(red()), one("n")]));
    let without = vec![
        field(0, "id", attribute("id"), true),
        field(1, "note", child("note", Cardinality::Single), true),
    ];
    assert_eq!(fill(&n, without), Ok(vec![one("7"), one("n")]));
}

#[test]
fn flatten_of_a_struct_like_variant_reads_attributes_of_the_same_node() {
    let inner = TypeDescriptor {
        variants: vec![VariantDescriptor {
            name: "Inner".to_string(),
            rename: Some("outer".to_string()),
            shape: Shape::Named(vec![field(0, "id", attribute("id"), true)]),
        }],
    };
    let d = TypeDescriptor {
        variants: vec![VariantDescriptor {
            name: "Outer".to_string(),
            rename: Some("outer".to_string()),
            shape: Shape::Unnamed(vec![
                typed(field(0, "", SourceKind::Flatten, true), inner),
                field(1, "", child("item", Cardinality::Many), false),
                field(2, "", attribute("id"), false),
            ]),
        }],
    };
    let doc = node(
        "outer",
        vec![("id", "9")],
        vec![node("item", vec![], vec![text("a")]), node("item", vec![], vec![text("b")])],
    );
    assert_eq!(
        decode(&doc, &d),
        Ok(Value::Unnamed {
            variant: 0,
            name: "Outer".to_string(),
            items: vec![
                FieldValue::One(Value::Named {
                    variant: 0,
                    name: "Inner".to_string(),
                    fields: vec![NamedValue { name: "id".to_string(), value: one("9") }],
                }),
                FieldValue::Many(vec![leaf("a"), leaf("b")]),
                FieldValue::Optional(Some(leaf("9"))),
            ],
        })
    );
}

#[test]
fn passes_run_flatten_then_text_then_attributes_then_children() {
    let n = node_of("p", vec![("a", "Mauve")], vec![text("Pink"), node("c", vec![], vec![])]);
    let c = || typed(field(0, "c", child("c", Cardinality::Single), true), colors());
    let a = || typed(field(1, "a", attribute("a"), true), colors());
    let t = || typed(field(2, "t", SourceKind::Text, true), colors());
    let f = || typed(field(3, "f", SourceKind::Flatten, true), colors());
    let slot = |mut f: FieldDescriptor, s: usize| {
        f.slot = s;
        f
    };
    assert_eq!(
        fill(&n, vec![c(), a(), t(), f()]),
        failed(DecodeError::NoVariantMatchedNode("p".to_string()))
    );
    assert_eq!(fill(&n, vec![c(), a(), t()]), failed(DecodeError::NoVariantMatchedText));
    let n2 = node_of("p", vec![("a", "Mauve")], vec![text("Red"), node("c", vec![], vec![])]);
    assert_eq!(fill(&n2, vec![c(), a(), t()]), failed(DecodeError::NoVariantMatchedText));
    let n3 = node_of("p", vec![("a", "Red")], vec![text("Red"), node("c", vec![], vec![])]);
    assert_eq!(
        fill(&n3, vec![c(), a(), t()]),
        failed(DecodeError::NoVariantMatchedNode("c".to_string()))
    );
    let missing = field(0, "m", attribute("m"), true);
    assert_eq!(
        fill(&n3, vec![missing, slot(c(), 1)]),
        failed(DecodeError::NoVariantMatchedNode("c".to_string()))
    );
}

#[test]
fn within_a_pass_fields_are_read_in_declaration_order() {
    let n = node_of("p", vec![], vec![node("x", vec![], vec![]), node("y", vec![], vec![])]);
    let x = typed(field(0, "x", child("x", Cardinality::Single), true), colors());
    let y = typed(field(1, "y", child("y", Cardinality::Single), true), colors());
    assert_eq!(fill(&n, vec![x, y]), failed(DecodeError::NoVariantMatchedNode("x".to_string())));
    let x = typed(field(1, "x", child("x", Cardinality::Single), true), colors());
    let y = typed(field(0, "y", child("y", Cardinality::Single), true), colors());
    assert_eq!(fill(&n, vec![y, x]), failed(DecodeError::NoVariantMatchedNode("y".to_string())));
}

#[test]
fn failures_nest_as_the_decodes_do() {
    let innermost = TypeDescriptor {
        variants: vec![VariantDescriptor {
            name: "Leafy".to_string(),
            rename: Some("b".to_string()),
            shape: Shape::Named(vec![field(0, "k", attribute("k"), true)]),
        }],
    };
    let middle = TypeDescriptor {
        variants: vec![VariantDescriptor {
            name: "Middle".to_string(),
            rename: Some("a".to_string()),
            shape: Shape::Unnamed(vec![typed(
                field(0, "", child("b", Cardinality::Single), true),
                innermost,
            )]),
        }],
    };
    let outer = TypeDescriptor {
        variants: vec![VariantDescriptor {
            name: "Outer".to_string(),
            rename: None,
            shape: Shape::Named(vec![typed(
                field(0, "a", child("a", Cardinality::Single), true),
                middle,
            )]),
        }],
    };
    let doc = node("Outer", vec![], vec![node("a", vec![], vec![node("b", vec![], vec![])])]);
    assert_eq!(
        decode(&doc, &outer),
        Err(DecodeError::DelegateFailure(Box::new(DecodeError::DelegateFailure(Box::new(
            DecodeError::MissingRequiredField(0)
        )))))
    );
    let doc = node("Outer", vec![], vec![node("a", vec![], vec![node("c", vec![], vec![])])]);
    assert_eq!(
        decode(&doc, &outer),
        Err(DecodeError::DelegateFailure(Box::new(DecodeError::MissingRequiredField(0))))
    );
    let doc = node("Outer", vec![], vec![node("z", vec![], vec![])]);
    assert_eq!(decode(&doc, &outer), Err(DecodeError::MissingRequiredField(0)));
}

#[test]
fn struct_like_values_carry_the_field_names() {
    let d = TypeDescriptor {
        variants: vec![VariantDescriptor {
            name: "Point".to_string(),
            rename: None,
            shape: Shape::Named(vec![
                field(0, "x", attribute("x"), true),
                field(1, "y", attribute("why"), true),
            ]),
        }],
    };
    assert_eq!(
        decode(&node("Point", vec![("why", "2"), ("x", "1")], vec![]), &d),
        Ok(Value::Named {
            variant: 0,
            name: "Point".to_string(),
            fields: vec![
                NamedValue { name: "x".to_string(), value: one("1") },
                NamedValue { name: "y".to_string(), value: one("2") },
            ],
        })
    );
}

#[test]
fn tuple_like_values_are_in_ordinal_order() {
    let d = TypeDescriptor {
        variants: vec![VariantDescriptor {
            name: "Pair".to_string(),
            rename: None,
            shape: Shape::Unnamed(vec![
                field(0, "", child("second", Cardinality::Single), true),
                field(1, "", attribute("first"), true),
            ]),
        }],
    };
    let doc = node("Pair", vec![("first", "1")], vec![node("second", vec![], vec![text("2")])]);
    assert_eq!(
        decode(&doc, &d),
        Ok(Value::Unnamed { variant: 0, name: "Pair".to_string(), items: vec![one("2"), one("1")] })
    );
}

#[test]
fn leaf_of_a_node_is_its_direct_text() {
    let n = node_of("p", vec![], vec![node("v", vec![], vec![text("1"), node("w", vec![], vec![text("2")]), text("3")])]);
    assert_eq!(
        fill(&n, vec![field(0, "v", child("v", Cardinality::Single), true)]),
        Ok(vec![one("13")])
    );
    assert_eq!(fill(&n, vec![field(0, "all", SourceKind::Flatten, true)]), Ok(vec![one("")]));
}

#[test]
fn variant_without_fields_populates_to_nothing() {
    assert_eq!(fill(&node_of("p", vec![("a", "1")], vec![text("t")]), vec![]), Ok(vec![]));
}
