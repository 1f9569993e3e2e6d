use xml_enum_decode::{
    build_plan, classify, Cardinality, ContainerShape, DescriptorError, Fault, FieldAnnotations,
    FieldDescriptor, FieldType, Shape, SourceKind, TypeDescriptor, VariantDescriptor,
};

fn marks(rename: Option<&str>, flatten: bool, attribute: bool, text: bool) -> FieldAnnotations {
    FieldAnnotations { rename: rename.map(|r| r.to_string()), flatten, attribute, text }
}

fn plain() -> FieldAnnotations {
    marks(None, false, false, false)
}

fn field(slot: usize, source: SourceKind, required: bool) -> FieldDescriptor {
    FieldDescriptor {
        slot,
        name: format!("f{slot}"),
        ordinal: slot + 1,
        source,
        required,
        target: FieldType::Leaf,
    }
}

fn child(tag: &str, cardinality: Cardinality) -> SourceKind {
    SourceKind::Child(tag.to_string(), cardinality)
}

fn named(fields: Vec<FieldDescriptor>) -> VariantDescriptor {
    VariantDescriptor { name: "N".to_string(), rename: None, shape: Shape::Named(fields) }
}

fn tuple(fields: Vec<FieldDescriptor>) -> VariantDescriptor {
    VariantDescriptor { name: "T".to_string(), rename: None, shape: Shape::Unnamed(fields) }
}

fn unit() -> VariantDescriptor {
    VariantDescriptor { name: "U".to_string(), rename: None, shape: Shape::Unit }
}

fn of(variants: Vec<VariantDescriptor>) -> TypeDescriptor {
    TypeDescriptor { variants }
}

fn fault(variant: usize, field: usize, fault: Fault) -> Result<(), DescriptorError> {
    Err(DescriptorError { variant, field, fault })
}

#[test]
fn container_decides_the_cardinality() {
    assert_eq!(Cardinality::from_container(ContainerShape::Bare), Cardinality::Single);
    assert_eq!(Cardinality::from_container(ContainerShape::Optional), Cardinality::Optional);
    assert_eq!(Cardinality::from_container(ContainerShape::Many), Cardinality::Many);
}

#[test]
fn unmarked_field_is_a_child_of_its_own_name() {
    assert_eq!(
        classify(0, "radius".to_string(), plain(), ContainerShape::Bare, FieldType::Leaf),
        FieldDescriptor {
            slot: 0,
            name: "radius".to_string(),
            ordinal: 1,
            source: child("radius", Cardinality::Single),
            required: true,
            target: FieldType::Leaf,
        }
    );
}

#[test]
fn rename_overrides_the_matched_name_only() {
    let f = classify(
        3,
        "side".to_string(),
        marks(Some("edge"), false, false, false),
        ContainerShape::Optional,
        FieldType::Leaf,
    );
    assert_eq!(f.name, "side");
    assert_eq!(f.source, child("edge", Cardinality::Optional));
    assert_eq!((f.slot, f.ordinal, f.required), (3, 4, false));
    let f = classify(
        1,
        "id".to_string(),
        marks(Some("ref"), false, true, false),
        ContainerShape::Bare,
        FieldType::Leaf,
    );
    assert_eq!(f.source, SourceKind::Attribute("ref".to_string()));
    let f = classify(
        1,
        "id".to_string(),
        marks(None, false, true, false),
        ContainerShape::Optional,
        FieldType::Leaf,
    );
    assert_eq!(f.source, SourceKind::Attribute("id".to_string()));
    assert!(!f.required);
}

#[test]
fn many_container_gives_a_collecting_child() {
    let f = classify(2, "items".to_string(), plain(), ContainerShape::Many, FieldType::Leaf);
    assert_eq!(f.source, child("items", Cardinality::Many));
    assert!(!f.required);
}

#[test]
fn flatten_comes_before_text_and_text_before_attribute() {
    let kind = |flatten, attribute, text| {
        classify(
            0,
            "f".to_string(),
            marks(Some("r"), flatten, attribute, text),
            ContainerShape::Bare,
            FieldType::Leaf,
        )
        .source
    };
    assert_eq!(kind(true, true, true), SourceKind::Flatten);
    assert_eq!(kind(true, false, false), SourceKind::Flatten);
    assert_eq!(kind(false, true, true), SourceKind::Text);
    assert_eq!(kind(false, false, true), SourceKind::Text);
    assert_eq!(kind(false, true, false), SourceKind::Attribute("r".to_string()));
    assert_eq!(kind(false, false, false), child("r", Cardinality::Single));
}

#[test]
fn plan_sorts_positions_by_pass_in_declaration_order() {
    let fields = vec![
        field(0, child("a", Cardinality::Single), true),
        field(1, SourceKind::Attribute("b".to_string()), true),
        field(2, SourceKind::Flatten, true),
        field(3, SourceKind::Text, true),
        field(4, child("e", Cardinality::Many), false),
        field(5, SourceKind::Flatten, true),
        field(6, SourceKind::Attribute("g".to_string()), false),
    ];
    let plan = build_plan(&fields);
    assert_eq!(plan.flatten_fields(), &vec![2, 5]);
    assert_eq!(plan.text_fields(), &vec![3]);
    assert_eq!(plan.attribute_fields(), &vec![1, 6]);
    assert_eq!(plan.child_fields(), &vec![0, 4]);
    assert!(std::ptr::eq(plan.fields(), &fields));
}

#[test]
fn plan_of_no_fields_is_empty() {
    let fields = vec![];
    let plan = build_plan(&fields);
    assert!(plan.flatten_fields().is_empty());
    assert!(plan.text_fields().is_empty());
    assert!(plan.attribute_fields().is_empty());
    assert!(plan.child_fields().is_empty());
}

#[test]
fn legal_descriptor_has_no_fault() {
    let inner = of(vec![unit(), named(vec![field(0, SourceKind::Text, true)])]);
    let mut flat = field(1, SourceKind::Flatten, true);
    flat.target = FieldType::Enum(inner);
    let mut odd = field(0, child("x", Cardinality::Single), false);
    odd.ordinal = 77;
    let d = of(vec![
        unit(),
        named(vec![odd, flat, field(2, SourceKind::Text, false)]),
        tuple(vec![
            field(0, child("o", Cardinality::Optional), false),
            field(1, child("m", Cardinality::Many), true),
        ]),
        named(vec![]),
    ]);
    assert_eq!(d.validate(), Ok(()));
    assert_eq!(of(vec![]).validate(), Ok(()));
}

#[test]
fn slot_must_be_the_position() {
    let d = of(vec![unit(), named(vec![field(0, SourceKind::Text, true), field(2, SourceKind::Flatten, true)])]);
    assert_eq!(d.validate(), fault(1, 1, Fault::SlotOutOfPlace));
}

#[test]
fn ordinal_of_a_tuple_field_must_be_its_position_from_one() {
    let mut f = field(1, child("x", Cardinality::Single), true);
    f.ordinal = 1;
    let d = of(vec![tuple(vec![field(0, child("w", Cardinality::Single), true), f])]);
    assert_eq!(d.validate(), fault(0, 1, Fault::OrdinalOutOfPlace));
}

#[test]
fn second_text_field_is_a_fault() {
    let d = of(vec![named(vec![
        field(0, SourceKind::Text, true),
        field(1, child("x", Cardinality::Single), true),
        field(2, SourceKind::Text, false),
        field(3, SourceKind::Text, false),
    ])]);
    assert_eq!(d.validate(), fault(0, 2, Fault::SecondTextField));
    let apart = of(vec![
        named(vec![field(0, SourceKind::Text, true)]),
        named(vec![field(0, SourceKind::Text, true)]),
    ]);
    assert_eq!(apart.validate(), Ok(()));
}

#[test]
fn flatten_of_a_leaf_is_a_fault() {
    let d = of(vec![unit(), unit(), tuple(vec![field(0, SourceKind::Flatten, true)])]);
    assert_eq!(d.validate(), fault(2, 0, Fault::FlattenOfLeaf));
}

#[test]
fn optional_child_must_not_be_required() {
    let d = of(vec![named(vec![field(0, child("x", Cardinality::Optional), true)])]);
    assert_eq!(d.validate(), fault(0, 0, Fault::OptionalRequired));
}

#[test]
fn fault_of_a_nested_enum_is_reported_inside() {
    let inner = of(vec![unit(), named(vec![field(1, SourceKind::Text, true)])]);
    let mut f = field(1, child("x", Cardinality::Single), true);
    f.target = FieldType::Enum(inner);
    let d = of(vec![named(vec![field(0, SourceKind::Text, true), f])]);
    assert_eq!(
        d.validate(),
        fault(
            0,
            1,
            Fault::Nested(Box::new(DescriptorError {
                variant: 1,
                field: 0,
                fault: Fault::SlotOutOfPlace
            }))
        )
    );
}

#[test]
fn first_fault_in_declaration_order_is_reported() {
    let d = of(vec![
        named(vec![field(0, SourceKind::Text, true)]),
        named(vec![
            field(0, child("x", Cardinality::Single), true),
            field(1, SourceKind::Flatten, true),
            field(7, SourceKind::Text, true),
        ]),
        tuple(vec![field(3, SourceKind::Text, true)]),
    ]);
    assert_eq!(d.validate(), fault(1, 1, Fault::FlattenOfLeaf));
}

#[test]
fn rules_are_tried_in_a_fixed_order_on_one_field() {
    let mut f = field(5, SourceKind::Text, true);
    f.ordinal = 9;
    let d = of(vec![tuple(vec![field(0, SourceKind::Text, true), f])]);
    assert_eq!(d.validate(), fault(0, 1, Fault::SlotOutOfPlace));
    let mut f = field(1, SourceKind::Text, true);
    f.ordinal = 9;
    let d = of(vec![tuple(vec![field(0, SourceKind::Text, true), f])]);
    assert_eq!(d.validate(), fault(0, 1, Fault::OrdinalOutOfPlace));
}

#[test]
fn classified_fields_make_a_legal_variant() {
    let fields = vec![
        classify(0, "id".to_string(), marks(None, false, true, false), ContainerShape::Bare, FieldType::Leaf),
        classify(1, "body".to_string(), marks(None, false, false, true), ContainerShape::Bare, FieldType::Leaf),
        classify(2, "sub".to_string(), plain(), ContainerShape::Optional, FieldType::Leaf),
        classify(3, "tags".to_string(), marks(Some("tag"), false, false, false), ContainerShape::Many, FieldType::Leaf),
    ];
    assert_eq!(of(vec![tuple(fields)]).validate(), Ok(()));
}

#[test]
fn descriptor_is_made_of_legal_variants_only() {
    let legal = vec![unit(), named(vec![field(0, SourceKind::Text, true)])];
    let made = TypeDescriptor::new(legal).unwrap();
    assert_eq!(made, of(vec![unit(), named(vec![field(0, SourceKind::Text, true)])]));
    let faulty = vec![unit(), named(vec![field(1, SourceKind::Text, true)])];
    assert_eq!(
        TypeDescriptor::new(faulty),
        Err(DescriptorError { variant: 1, field: 0, fault: Fault::SlotOutOfPlace })
    );
}

fn mark(key: &str, value: Option<&str>) -> xml_enum_decode::Mark {
    xml_enum_decode::Mark { key: key.to_string(), value: value.map(|v| v.to_string()) }
}

#[test]
fn no_mark_says_nothing() {
    assert_eq!(xml_enum_decode::read_marks(&vec![]), plain());
}

#[test]
fn marks_set_their_flags_wherever_they_stand() {
    let read = xml_enum_decode::read_marks;
    assert_eq!(read(&vec![mark("flatten", None)]), marks(None, true, false, false));
    assert_eq!(read(&vec![mark("attribute", None)]), marks(None, false, true, false));
    assert_eq!(read(&vec![mark("text", None)]), marks(None, false, false, true));
    assert_eq!(
        read(&vec![mark("text", None), mark("rename", Some("t")), mark("attribute", Some("x"))]),
        marks(Some("t"), false, true, true)
    );
}

#[test]
fn later_rename_takes_the_place_of_an_earlier_one() {
    let read = xml_enum_decode::read_marks;
    assert_eq!(
        read(&vec![mark("rename", Some("a")), mark("rename", Some("b"))]),
        marks(Some("b"), false, false, false)
    );
    assert_eq!(
        read(&vec![mark("rename", Some("a")), mark("rename", None)]),
        marks(Some("a"), false, false, false)
    );
    assert_eq!(read(&vec![mark("rename", None)]), plain());
}

#[test]
fn unknown_marks_are_passed_over() {
    let read = xml_enum_decode::read_marks;
    assert_eq!(
        read(&vec![mark("prefix", Some("p")), mark("Flatten", None), mark("", None), mark("renam", Some("x"))]),
        plain()
    );
}
