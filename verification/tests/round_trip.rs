use xml_enum_decode::{
    decode, Attribute, Cardinality, Element, FieldDescriptor, FieldType, FieldValue, NamedValue,
    NodeElement, Shape, SourceKind, TypeDescriptor, Value, VariantDescriptor,
};

fn effective_name(v: &VariantDescriptor) -> String {
    v.rename.clone().unwrap_or(v.name.clone())
}

fn fields_of(v: &VariantDescriptor) -> &[FieldDescriptor] {
    match &v.shape {
        Shape::Unit => &[],
        Shape::Named(fields) => fields,
        Shape::Unnamed(fields) => fields,
    }
}

fn variant_of(value: &Value) -> usize {
    match value {
        Value::Unit { variant, .. } => *variant,
        Value::Named { variant, .. } => *variant,
        Value::Unnamed { variant, .. } => *variant,
        Value::Leaf(_) => panic!("a leaf is no variant"),
    }
}

fn as_text(value: &Value, target: &FieldType) -> String {
    match (value, target) {
        (Value::Leaf(s), FieldType::Leaf) => s.clone(),
        (Value::Unit { variant, .. }, FieldType::Enum(d)) => effective_name(&d.variants[*variant]),
        _ => panic!("not written as text"),
    }
}

fn as_node(value: &Value, tag: &str, target: &FieldType) -> NodeElement {
    match (value, target) {
        (Value::Leaf(s), FieldType::Leaf) => NodeElement {
            name: tag.to_string(),
            attributes: vec![],
            children: vec![Element::Text(s.clone())],
        },
        (_, FieldType::Enum(d)) => encode_node(value, d),
        _ => panic!("not written as a node"),
    }
}

fn put(node: &mut NodeElement, field: &FieldDescriptor, value: &FieldValue) {
    let values: Vec<&Value> = match value {
        FieldValue::One(v) => vec![v],
        FieldValue::Optional(v) => v.iter().collect(),
        FieldValue::Many(vs) => vs.iter().collect(),
    };
    for v in values {
        match &field.source {
            SourceKind::Text => node.children.push(Element::Text(as_text(v, &field.target))),
            SourceKind::Attribute(name) => node
                .attributes
                .push(Attribute { name: name.clone(), value: as_text(v, &field.target) }),
            SourceKind::Child(tag, _) => {
                node.children.push(Element::Node(as_node(v, tag, &field.target)))
            }
            SourceKind::Flatten => {
                let inner = as_node(v, &node.name, &field.target);
                assert_eq!(inner.name, node.name);
                node.attributes.extend(inner.attributes);
                node.children.extend(inner.children);
            }
        }
    }
}

fn encode_node(value: &Value, d: &TypeDescriptor) -> NodeElement {
    let v = &d.variants[variant_of(value)];
    let mut node = NodeElement { name: effective_name(v), attributes: vec![], children: vec![] };
    match value {
        Value::Named { fields, .. } => {
            for (f, NamedValue { value, .. }) in fields_of(v).iter().zip(fields) {
                put(&mut node, f, value);
            }
        }
        Value::Unnamed { items, .. } => {
            for (f, value) in fields_of(v).iter().zip(items) {
                put(&mut node, f, value);
            }
        }
        _ => {}
    }
    node
}

fn encode(value: &Value, d: &TypeDescriptor) -> Element {
    match value {
        Value::Unit { variant, .. } => Element::Text(effective_name(&d.variants[*variant])),
        _ => Element::Node(encode_node(value, d)),
    }
}

fn field(slot: usize, name: &str, source: SourceKind, required: bool, target: FieldType) -> FieldDescriptor {
    FieldDescriptor { slot, name: name.to_string(), ordinal: slot + 1, source, required, target }
}

fn unit(name: &str, rename: Option<&str>) -> VariantDescriptor {
    VariantDescriptor {
        name: name.to_string(),
        rename: rename.map(|r| r.to_string()),
        shape: Shape::Unit,
    }
}

fn kinds() -> TypeDescriptor {
    TypeDescriptor { variants: vec![unit("Plain", None), unit("Bold", Some("b"))] }
}

fn inner_type() -> TypeDescriptor {
    TypeDescriptor {
        variants: vec![
            unit("Nothing", None),
            VariantDescriptor {
                name: "Core".to_string(),
                rename: Some("wrap".to_string()),
                shape: Shape::Named(vec![field(
                    0,
                    "code",
                    SourceKind::Attribute("code".to_string()),
                    true,
                    FieldType::Leaf,
                )]),
            },
        ],
    }
}

fn entry() -> TypeDescriptor {
    TypeDescriptor {
        variants: vec![VariantDescriptor {
            name: "Entry".to_string(),
            rename: Some("entry".to_string()),
            shape: Shape::Unnamed(vec![field(0, "", SourceKind::Text, true, FieldType::Leaf)]),
        }],
    }
}

fn doc() -> TypeDescriptor {
    let child = |tag: &str, c| SourceKind::Child(tag.to_string(), c);
    TypeDescriptor {
        variants: vec![
            unit("Empty", None),
            VariantDescriptor {
                name: "Item".to_string(),
                rename: Some("item".to_string()),
                shape: Shape::Named(vec![
                    field(0, "id", SourceKind::Attribute("id".to_string()), true, FieldType::Leaf),
                    field(
                        1,
                        "kind",
                        SourceKind::Attribute("kind".to_string()),
                        false,
                        FieldType::Enum(kinds()),
                    ),
                    field(2, "body", SourceKind::Text, true, FieldType::Leaf),
                    field(3, "title", child("title", Cardinality::Single), true, FieldType::Leaf),
                    field(4, "sub", child("sub", Cardinality::Optional), false, FieldType::Leaf),
                    field(5, "tags", child("tag", Cardinality::Many), false, FieldType::Leaf),
                    field(
                        6,
                        "entries",
                        child("entry", Cardinality::Many),
                        false,
                        FieldType::Enum(entry()),
                    ),
                ]),
            },
            VariantDescriptor {
                name: "Wrap".to_string(),
                rename: Some("wrap".to_string()),
                shape: Shape::Unnamed(vec![
                    field(0, "", SourceKind::Flatten, true, FieldType::Enum(inner_type())),
                    field(1, "", child("more", Cardinality::Many), false, FieldType::Leaf),
                    field(2, "", SourceKind::Flatten, false, FieldType::Enum(inner_type())),
                ]),
            },
        ],
    }
}

fn leaf(s: &str) -> Value {
    Value::Leaf(s.to_string())
}

fn named(name: &str, value: FieldValue) -> NamedValue {
    NamedValue { name: name.to_string(), value }
}

fn entry_value(s: &str) -> Value {
    Value::Unnamed { variant: 0, name: "Entry".to_string(), items: vec![FieldValue::One(leaf(s))] }
}

fn item(kind: Option<Value>, sub: Option<Value>, tags: Vec<Value>, entries: Vec<Value>) -> Value {
    Value::Named {
        variant: 1,
        name: "Item".to_string(),
        fields: vec![
            named("id", FieldValue::One(leaf("42"))),
            named("kind", FieldValue::Optional(kind)),
            named("body", FieldValue::One(leaf("some text"))),
            named("title", FieldValue::One(leaf("a title"))),
            named("sub", FieldValue::Optional(sub)),
            named("tags", FieldValue::Many(tags)),
            named("entries", FieldValue::Many(entries)),
        ],
    }
}

fn inner_value() -> Value {
    Value::Named {
        variant: 1,
        name: "Core".to_string(),
        fields: vec![named("code", FieldValue::One(leaf("c1")))],
    }
}

fn round_trips(value: Value) {
    let encoded = encode(&value, &doc());
    assert_eq!(decode(&encoded, &doc()), Ok(value));
}

#[test]
fn descriptor_of_the_round_trips_is_legal() {
    assert_eq!(doc().validate(), Ok(()));
}

#[test]
fn unit_variant_round_trips() {
    round_trips(Value::Unit { variant: 0, name: "Empty".to_string() });
}

#[test]
fn struct_like_variant_with_every_field_filled_round_trips() {
    round_trips(item(
        Some(Value::Unit { variant: 1, name: "Bold".to_string() }),
        Some(leaf("a subtitle")),
        vec![leaf("t1"), leaf("t2"), leaf("t3")],
        vec![entry_value("e1"), entry_value("e2")],
    ));
}

#[test]
fn struct_like_variant_with_every_optional_field_empty_round_trips() {
    round_trips(item(None, None, vec![], vec![]));
}

#[test]
fn struct_like_variant_is_written_as_expected() {
    let value = item(Some(Value::Unit { variant: 0, name: "Plain".to_string() }), None, vec![leaf("t")], vec![]);
    let text_node = |tag: &str, s: &str| {
        Element::Node(NodeElement {
            name: tag.to_string(),
            attributes: vec![],
            children: vec![Element::Text(s.to_string())],
        })
    };
    assert_eq!(
        encode(&value, &doc()),
        Element::Node(NodeElement {
            name: "item".to_string(),
            attributes: vec![
                Attribute { name: "id".to_string(), value: "42".to_string() },
                Attribute { name: "kind".to_string(), value: "Plain".to_string() },
            ],
            children: vec![
                Element::Text("some text".to_string()),
                text_node("title", "a title"),
                text_node("tag", "t"),
            ],
        })
    );
}

#[test]
fn tuple_like_variant_with_flatten_fields_round_trips() {
    round_trips(Value::Unnamed {
        variant: 2,
        name: "Wrap".to_string(),
        items: vec![
            FieldValue::One(inner_value()),
            FieldValue::Many(vec![leaf("m1"), leaf("m2")]),
            FieldValue::Optional(Some(inner_value())),
        ],
    });
}
