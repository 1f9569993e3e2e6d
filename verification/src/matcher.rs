//! Selects the variant that an element matches.

use vstd::prelude::*;
use crate::descriptor::{Shape, TypeDescriptor, VariantDescriptor};
use crate::element::{Element, ElementView, NodeElement};
use crate::model;
use crate::plan::build_plan;
use crate::populate::{collect_named, populate};
use crate::value::{
    field_values_view, lemma_named_view, lemma_unnamed_view, outcome_view, DecodeError, LeafKind,
    Value,
};

verus! {

/// Decodes an element as a value of the enum that `descriptor` describes.
///
/// A text leaf gives the first unit variant whose effective name it equals.
/// A node gives the first variant, of any shape, whose effective name is its
/// tag name, with its fields populated from the node. Whitespace, a comment
/// and character data give no value.
pub fn decode(element: &Element, descriptor: &TypeDescriptor) -> (r: Result<Value, DecodeError>)
    ensures
        outcome_view(r) == model::decode_type(element@, descriptor@),
    decreases descriptor, 2nat,
{
    match element {
        Element::Text(text) => decode_text(text, descriptor),
        Element::Node(node) => decode_node(node, descriptor),
        Element::Whitespace(_) => Err(DecodeError::UnexpectedLeafKind(LeafKind::Whitespace)),
        Element::Comment(_) => Err(DecodeError::UnexpectedLeafKind(LeafKind::Comment)),
        Element::CData(_) => Err(DecodeError::UnexpectedLeafKind(LeafKind::CData)),
    }
}

/// Decodes the string of a text leaf: the first unit variant whose effective
/// name equals it exactly.
pub fn decode_text(text: &String, descriptor: &TypeDescriptor) -> (r: Result<Value, DecodeError>)
    ensures
        outcome_view(r) == model::decode_text(text@, descriptor@),
{
    let n: usize = descriptor.variants.len();
    let mut i: usize = 0;
    while i < n
        invariant
            i <= n,
            n == descriptor.variants@.len(),
            model::text_match_from(descriptor@.variants, text@, 0) == model::text_match_from(
                descriptor@.variants,
                text@,
                i as nat,
            ),
        decreases n - i,
    {
        let variant = &descriptor.variants[i];
        assert(descriptor@.variants[i as int] == variant@);
        let unit = match &variant.shape {
            Shape::Unit => true,
            _ => false,
        };
        if unit && *variant.effective_name() == *text {
            return Ok(Value::Unit { variant: i, name: variant.name.clone() });
        }
        i += 1;
    }
    Err(DecodeError::NoVariantMatchedText)
}

/// Decodes a node: the first variant whose effective name equals the node's
/// tag name is built from it.
pub fn decode_node(node: &NodeElement, descriptor: &TypeDescriptor) -> (r: Result<
    Value,
    DecodeError,
>)
    ensures
        outcome_view(r) == model::decode_type(ElementView::Node(node@), descriptor@),
    decreases descriptor, 1nat,
{
    let n: usize = descriptor.variants.len();
    let mut i: usize = 0;
    while i < n
        invariant
            i <= n,
            n == descriptor.variants@.len(),
            model::decode_node_from(node@, descriptor@.variants, 0) == model::decode_node_from(
                node@,
                descriptor@.variants,
                i as nat,
            ),
        decreases n - i,
    {
        let variant = &descriptor.variants[i];
        assert(descriptor@.variants[i as int] == variant@);
        if *variant.effective_name() == node.name {
            return build_variant(node, i, variant);
        }
        i += 1;
    }
    Err(DecodeError::NoVariantMatchedNode(node.name.clone()))
}

/// Builds the value of the variant at position `index` from a node whose tag
/// name matched it: a unit variant as it is, any other with its fields
/// populated from the node.
pub fn build_variant(node: &NodeElement, index: usize, variant: &VariantDescriptor) -> (r: Result<
    Value,
    DecodeError,
>)
    ensures
        outcome_view(r) == model::build_variant(node@, index as int, variant@),
    decreases variant, 0nat,
{
    match &variant.shape {
        Shape::Unit => Ok(Value::Unit { variant: index, name: variant.name.clone() }),
        Shape::Named(fields) => {
            let plan = build_plan(fields);
            match populate(node, &plan) {
                Ok(values) => {
                    assert(field_values_view(values@).len() == values@.len());
                    let named = collect_named(fields, values);
                    let name = variant.name.clone();
                    proof {
                        lemma_named_view(index, name, named);
                    }
                    Ok(Value::Named { variant: index, name, fields: named })
                },
                Err(e) => Err(e),
            }
        },
        Shape::Unnamed(fields) => {
            let plan = build_plan(fields);
            match populate(node, &plan) {
                Ok(values) => {
                    let name = variant.name.clone();
                    proof {
                        lemma_unnamed_view(index, name, values);
                    }
                    Ok(Value::Unnamed { variant: index, name, items: values })
                },
                Err(e) => Err(e),
            }
        },
    }
}

} // verus!
