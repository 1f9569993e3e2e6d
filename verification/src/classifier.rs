//! From declarations to descriptors: the source kind that a field's
//! annotations stand for, and the rules that a descriptor must keep.

use vstd::prelude::*;
use crate::descriptor::{
    fields_view, Cardinality, ContainerShape, FieldDescriptor, FieldType, FieldTypeView, FieldView,
    Shape, ShapeView, SourceKind, SourceView, TypeDescriptor, TypeView, VariantDescriptor,
    VariantView,
};

verus! {

/// What a field's declaration says of how it maps onto a node.
#[derive(Debug, PartialEq, Eq)]
pub struct FieldAnnotations {
    /// Overrides the field's name as the attribute or tag name to match.
    pub rename: Option<String>,
    /// The field takes the whole node.
    pub flatten: bool,
    /// The field takes an attribute rather than a child.
    pub attribute: bool,
    /// The field takes the node's text.
    pub text: bool,
}

/// The mathematical content of `FieldAnnotations`.
pub ghost struct AnnotationsView {
    pub rename: Option<Seq<char>>,
    pub flatten: bool,
    pub attribute: bool,
    pub text: bool,
}

impl View for FieldAnnotations {
    type V = AnnotationsView;

    open spec fn view(&self) -> AnnotationsView {
        AnnotationsView {
            rename: match self.rename {
                Some(rename) => Some(rename@),
                None => None,
            },
            flatten: self.flatten,
            attribute: self.attribute,
            text: self.text,
        }
    }
}

/// One mark in the declaration of a field or of a variant: a key, and the
/// string that is given for it, if one is.
#[derive(Debug, PartialEq, Eq)]
pub struct Mark {
    pub key: String,
    pub value: Option<String>,
}

impl View for Mark {
    type V = (Seq<char>, Option<Seq<char>>);

    open spec fn view(&self) -> (Seq<char>, Option<Seq<char>>) {
        (
            self.key@,
            match self.value {
                Some(value) => Some(value@),
                None => None,
            },
        )
    }
}

/// The contents of a list of marks, in order.
pub open spec fn marks_view(marks: Seq<Mark>) -> Seq<(Seq<char>, Option<Seq<char>>)> {
    marks.map_values(|m: Mark| m@)
}

/// Whether some mark has this key.
pub open spec fn is_marked(marks: Seq<(Seq<char>, Option<Seq<char>>)>, key: Seq<char>) -> bool {
    exists|i: int| 0 <= i < marks.len() && (#[trigger] marks[i]).0 == key
}

/// The string of the last of the first `end` marks that is a `rename` with a
/// string.
pub open spec fn renamed_before(marks: Seq<(Seq<char>, Option<Seq<char>>)>, end: nat) -> Option<
    Seq<char>,
>
    decreases end,
{
    if end == 0 || end > marks.len() {
        None
    } else if marks[end - 1].0 == "rename"@ && marks[end - 1].1 is Some {
        marks[end - 1].1
    } else {
        renamed_before(marks, (end - 1) as nat)
    }
}

/// What a list of marks says: the keys `flatten`, `attribute` and `text`
/// each set their flag wherever they stand, a `rename` with a string gives
/// the rename, a later one in place of an earlier one, and any other mark
/// says nothing.
pub open spec fn annotations_of(marks: Seq<(Seq<char>, Option<Seq<char>>)>) -> AnnotationsView {
    AnnotationsView {
        rename: renamed_before(marks, marks.len()),
        flatten: is_marked(marks, "flatten"@),
        attribute: is_marked(marks, "attribute"@),
        text: is_marked(marks, "text"@),
    }
}

/// Reads the marks of one declaration.
pub fn read_marks(marks: &Vec<Mark>) -> (annotations: FieldAnnotations)
    ensures
        annotations@ == annotations_of(marks_view(marks@)),
{
    let rename_key = "rename".to_owned();
    let flatten_key = "flatten".to_owned();
    let attribute_key = "attribute".to_owned();
    let text_key = "text".to_owned();
    let ghost views = marks_view(marks@);
    let mut rename: Option<String> = None;
    let mut flatten = false;
    let mut attribute = false;
    let mut text = false;
    let n: usize = marks.len();
    let mut i: usize = 0;
    while i < n
        invariant
            i <= n,
            n == marks@.len(),
            views == marks_view(marks@),
            rename_key@ == "rename"@,
            flatten_key@ == "flatten"@,
            attribute_key@ == "attribute"@,
            text_key@ == "text"@,
            match rename {
                Some(r) => renamed_before(views, i as nat) == Some(r@),
                None => renamed_before(views, i as nat) is None,
            },
            flatten == is_marked(views.take(i as int), "flatten"@),
            attribute == is_marked(views.take(i as int), "attribute"@),
            text == is_marked(views.take(i as int), "text"@),
        decreases n - i,
    {
        let mark = &marks[i];
        proof {
            let before = views.take(i as int);
            let after = views.take(i + 1);
            assert(views[i as int] == mark@);
            assert(after[i as int] == mark@);
            assert forall|key: Seq<char>| is_marked(after, key) <==> is_marked(before, key)
                || mark@.0 == key by {
                if is_marked(after, key) {
                    let k = choose|k: int| 0 <= k < after.len() && (#[trigger] after[k]).0 == key;
                    if k < i {
                        assert(before[k].0 == key);
                    }
                }
                if is_marked(before, key) {
                    let k = choose|k: int| 0 <= k < before.len() && (#[trigger] before[k]).0 == key;
                    assert(after[k].0 == key);
                }
            }
        }
        if mark.key == rename_key {
            match &mark.value {
                Some(value) => {
                    rename = Some(value.clone());
                },
                None => {},
            }
        }
        if mark.key == flatten_key {
            flatten = true;
        }
        if mark.key == attribute_key {
            attribute = true;
        }
        if mark.key == text_key {
            text = true;
        }
        i += 1;
    }
    assert(views.take(n as int) == views);
    FieldAnnotations { rename, flatten, attribute, text }
}

/// The source kind that a declaration stands for: flatten before text before
/// attribute, and a field with none of these marks is a child. An attribute
/// or a child is matched by the rename where there is one, else by the
/// field's name.
pub open spec fn source_of(
    name: Seq<char>,
    annotations: AnnotationsView,
    container: ContainerShape,
) -> SourceView {
    let matched = match annotations.rename {
        Some(rename) => rename,
        None => name,
    };
    if annotations.flatten {
        SourceView::Flatten
    } else if annotations.text {
        SourceView::Text
    } else if annotations.attribute {
        SourceView::Attribute(matched)
    } else {
        SourceView::Child(matched, Cardinality::of_container(container))
    }
}

/// The descriptor of the field declared at `position` (counted from 0) with
/// these annotations: it is required exactly when its container is bare.
pub open spec fn classified(
    position: int,
    name: Seq<char>,
    annotations: AnnotationsView,
    container: ContainerShape,
    target: FieldTypeView,
) -> FieldView {
    FieldView {
        slot: position,
        name,
        ordinal: position + 1,
        source: source_of(name, annotations, container),
        required: container == ContainerShape::Bare,
        target,
    }
}

/// Classifies one declared field.
pub fn classify(
    position: usize,
    name: String,
    annotations: FieldAnnotations,
    container: ContainerShape,
    target: FieldType,
) -> (field: FieldDescriptor)
    requires
        position < usize::MAX,
    ensures
        field@ == classified(position as int, name@, annotations@, container, target@),
{
    let FieldAnnotations { rename, flatten, attribute, text } = annotations;
    let source = if flatten {
        SourceKind::Flatten
    } else if text {
        SourceKind::Text
    } else {
        let matched = match rename {
            Some(rename) => rename,
            None => name.clone(),
        };
        if attribute {
            SourceKind::Attribute(matched)
        } else {
            SourceKind::Child(matched, Cardinality::from_container(container))
        }
    };
    let required = match container {
        ContainerShape::Bare => true,
        _ => false,
    };
    FieldDescriptor { slot: position, name, ordinal: position + 1, source, required, target }
}

/// What is wrong with a field of a descriptor.
#[derive(Debug, PartialEq, Eq)]
pub enum Fault {
    /// The field's slot index is not its position.
    SlotOutOfPlace,
    /// The field of a tuple-like variant has an ordinal other than its
    /// position counted from 1.
    OrdinalOutOfPlace,
    /// The variant has a text field before this text field.
    SecondTextField,
    /// The field takes the whole node, and its type is a primitive leaf.
    FlattenOfLeaf,
    /// The field is an optional child, and marked required.
    OptionalRequired,
    /// The enum that is the field's type has a fault of its own.
    Nested(Box<DescriptorError>),
}

/// The first fault of a descriptor: the variant and the field by position.
#[derive(Debug, PartialEq, Eq)]
pub struct DescriptorError {
    pub variant: usize,
    pub field: usize,
    pub fault: Fault,
}

/// The mathematical content of a `Fault`.
pub ghost enum FaultView {
    SlotOutOfPlace,
    OrdinalOutOfPlace,
    SecondTextField,
    FlattenOfLeaf,
    OptionalRequired,
    Nested(Box<DescriptorErrorView>),
}

/// The mathematical content of a `DescriptorError`.
pub ghost struct DescriptorErrorView {
    pub variant: int,
    pub field: int,
    pub fault: FaultView,
}

impl View for Fault {
    type V = FaultView;

    open spec fn view(&self) -> FaultView
        decreases self,
    {
        match self {
            Fault::SlotOutOfPlace => FaultView::SlotOutOfPlace,
            Fault::OrdinalOutOfPlace => FaultView::OrdinalOutOfPlace,
            Fault::SecondTextField => FaultView::SecondTextField,
            Fault::FlattenOfLeaf => FaultView::FlattenOfLeaf,
            Fault::OptionalRequired => FaultView::OptionalRequired,
            Fault::Nested(inner) => FaultView::Nested(Box::new((**inner)@)),
        }
    }
}

impl View for DescriptorError {
    type V = DescriptorErrorView;

    open spec fn view(&self) -> DescriptorErrorView
        decreases self,
    {
        DescriptorErrorView {
            variant: self.variant as int,
            field: self.field as int,
            fault: self.fault@,
        }
    }
}

/// Whether a text field stands before position `i`.
pub open spec fn has_text_before(fields: Seq<FieldView>, i: int) -> bool {
    exists|j: int| 0 <= j < i && j < fields.len() && (#[trigger] fields[j]).source is Text
}

/// The first rule that the field at `position` breaks, if it breaks one.
pub open spec fn field_fault(
    field: FieldView,
    position: int,
    text_before: bool,
    tuple_like: bool,
) -> Option<FaultView>
    decreases field, 0nat, 0nat,
{
    if field.slot != position {
        Some(FaultView::SlotOutOfPlace)
    } else if tuple_like && field.ordinal != position + 1 {
        Some(FaultView::OrdinalOutOfPlace)
    } else if field.source is Text && text_before {
        Some(FaultView::SecondTextField)
    } else if field.source is Flatten && field.target is Leaf {
        Some(FaultView::FlattenOfLeaf)
    } else if field.source matches SourceView::Child(_, Cardinality::Optional) && field.required {
        Some(FaultView::OptionalRequired)
    } else {
        match field.target {
            FieldTypeView::Leaf => None,
            FieldTypeView::Enum(descriptor) => match type_fault(descriptor) {
                Some(e) => Some(FaultView::Nested(Box::new(e))),
                None => None,
            },
        }
    }
}

/// The first faulty field at or after `start`, with its fault.
pub open spec fn fields_fault_from(fields: Seq<FieldView>, tuple_like: bool, start: nat) -> Option<
    (int, FaultView),
>
    decreases fields, 0nat, fields.len() - start,
{
    if start >= fields.len() {
        None
    } else {
        match field_fault(
            fields[start as int],
            start as int,
            has_text_before(fields, start as int),
            tuple_like,
        ) {
            Some(fault) => Some((start as int, fault)),
            None => fields_fault_from(fields, tuple_like, start + 1),
        }
    }
}

/// The first faulty field of a variant, with its fault.
pub open spec fn variant_fault(variant: VariantView) -> Option<(int, FaultView)>
    decreases variant, 0nat, 0nat,
{
    match variant.shape {
        ShapeView::Unit => None,
        ShapeView::Named(fields) => fields_fault_from(fields, false, 0),
        ShapeView::Unnamed(fields) => fields_fault_from(fields, true, 0),
    }
}

/// The first fault among the variants at or after `start`.
pub open spec fn type_fault_from(variants: Seq<VariantView>, start: nat) -> Option<
    DescriptorErrorView,
>
    decreases variants, 0nat, variants.len() - start,
{
    if start >= variants.len() {
        None
    } else {
        match variant_fault(variants[start as int]) {
            Some((field, fault)) => Some(
                DescriptorErrorView { variant: start as int, field, fault },
            ),
            None => type_fault_from(variants, start + 1),
        }
    }
}

/// The first fault of a descriptor, in declaration order.
pub open spec fn type_fault(descriptor: TypeView) -> Option<DescriptorErrorView>
    decreases descriptor, 0nat, 0nat,
{
    type_fault_from(descriptor.variants, 0)
}

impl TypeView {
    /// Whether the descriptor is legal: it has no fault.
    pub open spec fn valid(self) -> bool {
        type_fault(self) is None
    }
}

/// The first rule that one field breaks, if it breaks one.
pub fn validate_field(
    field: &FieldDescriptor,
    position: usize,
    text_before: bool,
    tuple_like: bool,
) -> (r: Option<Fault>)
    ensures
        match r {
            Some(fault) => field_fault(field@, position as int, text_before, tuple_like) == Some(
                fault@,
            ),
            None => field_fault(field@, position as int, text_before, tuple_like) is None,
        },
    decreases field, 0nat,
{
    if field.slot != position {
        return Some(Fault::SlotOutOfPlace);
    }
    if tuple_like && (position == usize::MAX || field.ordinal != position + 1) {
        return Some(Fault::OrdinalOutOfPlace);
    }
    match &field.source {
        SourceKind::Text => {
            if text_before {
                return Some(Fault::SecondTextField);
            }
        },
        SourceKind::Flatten => {
            match &field.target {
                FieldType::Leaf => {
                    return Some(Fault::FlattenOfLeaf);
                },
                _ => {},
            }
        },
        SourceKind::Child(_, Cardinality::Optional) => {
            if field.required {
                return Some(Fault::OptionalRequired);
            }
        },
        _ => {},
    }
    match &field.target {
        FieldType::Leaf => None,
        FieldType::Enum(descriptor) => match descriptor.validate() {
            Ok(_) => None,
            Err(e) => Some(Fault::Nested(Box::new(e))),
        },
    }
}

/// The first faulty field of a list, with its fault.
pub fn validate_fields(fields: &Vec<FieldDescriptor>, tuple_like: bool) -> (r: Option<(usize, Fault)>)
    ensures
        match r {
            Some((i, fault)) => fields_fault_from(fields_view(fields), tuple_like, 0) == Some(
                (i as int, fault@),
            ),
            None => fields_fault_from(fields_view(fields), tuple_like, 0) is None,
        },
    decreases fields, 1nat,
{
    let ghost views = fields_view(fields);
    let n: usize = fields.len();
    let mut text_before = false;
    let mut i: usize = 0;
    while i < n
        invariant
            i <= n,
            n == fields@.len(),
            views == fields_view(fields),
            text_before == has_text_before(views, i as int),
            fields_fault_from(views, tuple_like, 0) == fields_fault_from(
                views,
                tuple_like,
                i as nat,
            ),
        decreases n - i,
    {
        assert(views[i as int] == fields@[i as int]@);
        match validate_field(&fields[i], i, text_before, tuple_like) {
            Some(fault) => {
                return Some((i, fault));
            },
            None => {},
        }
        let is_text = match &fields[i].source {
            SourceKind::Text => true,
            _ => false,
        };
        proof {
            if has_text_before(views, i + 1) {
                let j = choose|j: int| 0 <= j < i + 1 && j < views.len() && (#[trigger] views[j]).source is Text;
                if j < i {
                    assert(has_text_before(views, i as int));
                }
            }
            if is_text {
                assert(views[i as int].source is Text);
            }
        }
        text_before = text_before || is_text;
        i += 1;
    }
    None
}

impl TypeDescriptor {
    /// Makes the descriptor of an enum from its variants in declaration
    /// order, if they are legal; else gives their first fault.
    pub fn new(variants: Vec<VariantDescriptor>) -> (r: Result<TypeDescriptor, DescriptorError>)
        ensures
            match r {
                Ok(descriptor) => descriptor.variants == variants && descriptor@.valid(),
                Err(e) => type_fault((TypeDescriptor { variants })@) == Some(e@),
            },
    {
        let descriptor = TypeDescriptor { variants };
        match descriptor.validate() {
            Ok(_) => Ok(descriptor),
            Err(e) => Err(e),
        }
    }

    /// Tells whether the descriptor is legal: gives the first fault in
    /// declaration order, or none. This is done once for a type, before any
    /// element is decoded with it.
    pub fn validate(&self) -> (r: Result<(), DescriptorError>)
        ensures
            r is Ok <==> self@.valid(),
            match r {
                Ok(_) => type_fault(self@) is None,
                Err(e) => type_fault(self@) == Some(e@),
            },
        decreases self, 0nat,
    {
        let n: usize = self.variants.len();
        let mut i: usize = 0;
        while i < n
            invariant
                i <= n,
                n == self.variants@.len(),
                type_fault(self@) == type_fault_from(self@.variants, i as nat),
            decreases n - i,
        {
            let variant = &self.variants[i];
            assert(self@.variants[i as int] == variant@);
            let found = match &variant.shape {
                Shape::Unit => None,
                Shape::Named(fields) => validate_fields(fields, false),
                Shape::Unnamed(fields) => validate_fields(fields, true),
            };
            proof {
                assert(variant@.shape == variant.shape@);
                assert(match found {
                    Some((field, fault)) => variant_fault(variant@) == Some((field as int, fault@)),
                    None => variant_fault(variant@) is None,
                });
            }
            match found {
                Some((field, fault)) => {
                    return Err(DescriptorError { variant: i, field, fault });
                },
                None => {},
            }
            i += 1;
        }
        Ok(())
    }
}

} // verus!
