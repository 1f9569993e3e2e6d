use xml_enum_decode::{
    decode, Cardinality, DecodeError, Element, FieldDescriptor, FieldType, FieldValue, NamedValue,
    NodeElement, Shape, SourceKind, TypeDescriptor, Value, VariantDescriptor,
};

fn leaf_child(slot: usize, name: &str, tag: &str) -> FieldDescriptor {
    FieldDescriptor {
        slot,
        name: name.to_string(),
        ordinal: slot + 1,
        source: SourceKind::Child(tag.to_string(), Cardinality::Single),
        required: true,
        target: FieldType::Leaf,
    }
}

fn shape() -> TypeDescriptor {
    TypeDescriptor {
        variants: vec![
            VariantDescriptor {
                name: "Circle".to_string(),
                rename: None,
                shape: Shape::Named(vec![leaf_child(0, "radius", "radius")]),
            },
            VariantDescriptor {
                name: "Square".to_string(),
                rename: None,
                shape: Shape::Named(vec![leaf_child(0, "side", "edge")]),
            },
            VariantDescriptor { name: "Origin".to_string(), rename: None, shape: Shape::Unit },
        ],
    }
}

fn node(name: &str, children: Vec<Element>) -> Element {
    Element::Node(NodeElement { name: name.to_string(), attributes: vec![], children })
}

fn text(s: &str) -> Element {
    Element::Text(s.to_string())
}

fn number(value: &Value, field: &str) -> f64 {
    match value {
        Value::Named { fields, .. } => {
            for NamedValue { name, value } in fields {
                if name == field {
                    if let FieldValue::One(Value::Leaf(s)) = value {
                        return s.parse::<f64>().unwrap();
                    }
                }
            }
            panic!("no such field")
        }
        _ => panic!("not a struct-like variant"),
    }
}

#[test]
fn circle_takes_its_radius_from_the_child() {
    let doc = node("Circle", vec![node("radius", vec![text("2.5")])]);
    let value = decode(&doc, &shape()).unwrap();
    assert_eq!(
        value,
        Value::Named {
            variant: 0,
            name: "Circle".to_string(),
            fields: vec![NamedValue {
                name: "radius".to_string(),
                value: FieldValue::One(Value::Leaf("2.5".to_string())),
            }],
        }
    );
    assert_eq!(number(&value, "radius"), 2.5);
}

#[test]
fn square_takes_its_side_from_the_renamed_child() {
    let doc = node("Square", vec![node("edge", vec![text("3")])]);
    let value = decode(&doc, &shape()).unwrap();
    assert!(matches!(&value, Value::Named { variant: 1, name, .. } if name == "Square"));
    assert_eq!(number(&value, "side"), 3.0);
}

#[test]
fn origin_is_matched_by_text() {
    assert_eq!(
        decode(&text("Origin"), &shape()),
        Ok(Value::Unit { variant: 2, name: "Origin".to_string() })
    );
}

#[test]
fn triangle_matches_no_variant() {
    assert_eq!(
        decode(&node("Triangle", vec![]), &shape()),
        Err(DecodeError::NoVariantMatchedNode("Triangle".to_string()))
    );
}
