//! The description of an enum type: its variants in declaration order and,
//! for each field, where in a node its content is found.

use vstd::prelude::*;

verus! {

/// How a field's declared type wraps its value.
#[derive(Clone, Copy, Debug, PartialEq, Eq, Structural)]
pub enum ContainerShape {
    Bare,
    Optional,
    Many,
}

impl ContainerShape {
    /// The container that a type of this name is: `Option` is the optional
    /// wrapper, `Vec` the multi-element container, any other name a bare
    /// value.
    pub open spec fn of_type_name(name: Seq<char>) -> ContainerShape {
        if name == "Option"@ {
            ContainerShape::Optional
        } else if name == "Vec"@ {
            ContainerShape::Many
        } else {
            ContainerShape::Bare
        }
    }

    /// Tells the container from the name of a field's declared type.
    pub fn from_type_name(name: &str) -> (shape: ContainerShape)
        ensures
            shape == ContainerShape::of_type_name(name@),
    {
        let name = name.to_owned();
        if name == "Option".to_owned() {
            ContainerShape::Optional
        } else if name == "Vec".to_owned() {
            ContainerShape::Many
        } else {
            ContainerShape::Bare
        }
    }
}

/// How many matching children a child field accepts.
#[derive(Clone, Copy, Debug, PartialEq, Eq, Structural)]
pub enum Cardinality {
    Single,
    Optional,
    Many,
}

impl Cardinality {
    /// The cardinality that a declared container stands for.
    pub open spec fn of_container(shape: ContainerShape) -> Cardinality {
        match shape {
            ContainerShape::Bare => Cardinality::Single,
            ContainerShape::Optional => Cardinality::Optional,
            ContainerShape::Many => Cardinality::Many,
        }
    }

    /// A bare value accepts one match, an optional wrapper at most one, a
    /// multi-element container any number.
    pub fn from_container(shape: ContainerShape) -> (c: Cardinality)
        ensures
            c == Cardinality::of_container(shape),
    {
        match shape {
            ContainerShape::Bare => Cardinality::Single,
            ContainerShape::Optional => Cardinality::Optional,
            ContainerShape::Many => Cardinality::Many,
        }
    }
}

/// Where in a node a field's content is found.
#[derive(Debug, PartialEq, Eq)]
pub enum SourceKind {
    /// The node's own text.
    Text,
    /// The attribute of this name.
    Attribute(String),
    /// The child nodes of this tag name.
    Child(String, Cardinality),
    /// The whole node, handed to the field's own type.
    Flatten,
}

/// The type that decodes a field's content.
#[derive(Debug, PartialEq, Eq)]
pub enum FieldType {
    /// A primitive leaf, kept as its text.
    Leaf,
    /// A nested enum.
    Enum(TypeDescriptor),
}

/// One field of a variant and how it maps onto a node.
#[derive(Debug, PartialEq, Eq)]
pub struct FieldDescriptor {
    /// The index of the field's storage slot.
    pub slot: usize,
    /// The field's identifier; used to build struct-like variants.
    pub name: String,
    /// The 1-based position of the field in a tuple-like variant.
    pub ordinal: usize,
    pub source: SourceKind,
    pub required: bool,
    pub target: FieldType,
}

/// The shape of a variant.
#[derive(Debug, PartialEq, Eq)]
pub enum Shape {
    Unit,
    Named(Vec<FieldDescriptor>),
    Unnamed(Vec<FieldDescriptor>),
}

/// One variant of an enum.
#[derive(Debug, PartialEq, Eq)]
pub struct VariantDescriptor {
    pub name: String,
    /// Overrides `name` in matching when present.
    pub rename: Option<String>,
    pub shape: Shape,
}

/// An enum type: its variants in declaration order.
#[derive(Debug, PartialEq, Eq)]
pub struct TypeDescriptor {
    pub variants: Vec<VariantDescriptor>,
}

/// The mathematical content of a `SourceKind`.
pub ghost enum SourceView {
    Text,
    Attribute(Seq<char>),
    Child(Seq<char>, Cardinality),
    Flatten,
}

/// The mathematical content of a `FieldType`.
pub ghost enum FieldTypeView {
    Leaf,
    Enum(TypeView),
}

/// The mathematical content of a `FieldDescriptor`.
pub ghost struct FieldView {
    pub slot: int,
    pub name: Seq<char>,
    pub ordinal: int,
    pub source: SourceView,
    pub required: bool,
    pub target: FieldTypeView,
}

/// The mathematical content of a `Shape`.
pub ghost enum ShapeView {
    Unit,
    Named(Seq<FieldView>),
    Unnamed(Seq<FieldView>),
}

/// The mathematical content of a `VariantDescriptor`.
pub ghost struct VariantView {
    pub name: Seq<char>,
    pub rename: Option<Seq<char>>,
    pub shape: ShapeView,
}

/// The mathematical content of a `TypeDescriptor`.
pub ghost struct TypeView {
    pub variants: Seq<VariantView>,
}

impl View for SourceKind {
    type V = SourceView;

    open spec fn view(&self) -> SourceView {
        match self {
            SourceKind::Text => SourceView::Text,
            SourceKind::Attribute(name) => SourceView::Attribute(name@),
            SourceKind::Child(name, cardinality) => SourceView::Child(name@, *cardinality),
            SourceKind::Flatten => SourceView::Flatten,
        }
    }
}

impl View for FieldType {
    type V = FieldTypeView;

    open spec fn view(&self) -> FieldTypeView
        decreases self,
    {
        match self {
            FieldType::Leaf => FieldTypeView::Leaf,
            FieldType::Enum(descriptor) => FieldTypeView::Enum(descriptor@),
        }
    }
}

impl View for FieldDescriptor {
    type V = FieldView;

    open spec fn view(&self) -> FieldView
        decreases self,
    {
        FieldView {
            slot: self.slot as int,
            name: self.name@,
            ordinal: self.ordinal as int,
            source: self.source@,
            required: self.required,
            target: self.target@,
        }
    }
}

/// The contents of a list of fields, in order.
pub open spec fn fields_view(fields: &Vec<FieldDescriptor>) -> Seq<FieldView>
    decreases fields,
{
    Seq::new(
        fields@.len(),
        |i: int|
            if 0 <= i < fields@.len() {
                fields@[i]@
            } else {
                arbitrary()
            },
    )
}

impl View for Shape {
    type V = ShapeView;

    open spec fn view(&self) -> ShapeView
        decreases self,
    {
        match self {
            Shape::Unit => ShapeView::Unit,
            Shape::Named(fields) => ShapeView::Named(fields_view(fields)),
            Shape::Unnamed(fields) => ShapeView::Unnamed(fields_view(fields)),
        }
    }
}

impl View for VariantDescriptor {
    type V = VariantView;

    open spec fn view(&self) -> VariantView
        decreases self,
    {
        VariantView {
            name: self.name@,
            rename: match self.rename {
                Some(rename) => Some(rename@),
                None => None,
            },
            shape: self.shape@,
        }
    }
}

impl View for TypeDescriptor {
    type V = TypeView;

    open spec fn view(&self) -> TypeView
        decreases self,
    {
        TypeView {
            variants: Seq::new(
                self.variants@.len(),
                |i: int|
                    if 0 <= i < self.variants@.len() {
                        self.variants@[i]@
                    } else {
                        arbitrary()
                    },
            ),
        }
    }
}

impl VariantView {
    /// The name that matching compares: the rename where there is one, else
    /// the identifier.
    pub open spec fn effective_name(self) -> Seq<char> {
        match self.rename {
            Some(rename) => rename,
            None => self.name,
        }
    }

    pub open spec fn is_unit(self) -> bool {
        self.shape is Unit
    }
}

impl VariantDescriptor {
    /// The name that matching compares.
    pub fn effective_name(&self) -> (name: &String)
        ensures
            name@ == self@.effective_name(),
    {
        match &self.rename {
            Some(rename) => rename,
            None => &self.name,
        }
    }
}

} // verus!
