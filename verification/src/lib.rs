//! Decodes an already parsed XML tree into values of enum types.
//!
//! An enum is described by a [`TypeDescriptor`]: its variants in declaration
//! order and, for each field of a variant, where in a node its content is
//! found. [`decode`] selects the variant that an element matches and
//! populates its fields from the node, or says why it cannot.

pub mod classifier;
pub mod descriptor;
pub mod element;
pub mod laws;
pub mod matcher;
pub mod model;
pub mod plan;
pub mod populate;
pub mod round_trip;
pub mod value;

pub use crate::classifier::{
    classify, read_marks, DescriptorError, Fault, FieldAnnotations, Mark,
};
pub use crate::descriptor::{
    Cardinality, ContainerShape, FieldDescriptor, FieldType, Shape, SourceKind, TypeDescriptor,
    VariantDescriptor,
};
pub use crate::element::{Attribute, Element, NodeElement};
pub use crate::matcher::decode;
pub use crate::plan::{build_plan, FieldPlan};
pub use crate::populate::populate;
pub use crate::value::{DecodeError, FieldValue, LeafKind, NamedValue, Value};
