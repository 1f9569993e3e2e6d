//! Decoding as the inverse of writing: what it takes for an element to
//! write a value, and the proof that decoding gives back exactly what was
//! written.

use vstd::prelude::*;
use crate::descriptor::{
    Cardinality, FieldTypeView, FieldView, ShapeView, SourceView, TypeView, VariantView,
};
use crate::element::{children_named, direct_text, first_attribute, ElementView, NodeView};
use crate::laws::{
    is_first_node_match, is_first_text_match, is_node_match, is_text_match,
    lemma_decode_all_succeeds, lemma_decode_all_values, lemma_fields_read_independently,
    lemma_first_node_match, lemma_first_text_match, lemma_node_decoding, lemma_populate_succeeds,
    lemma_text_decoding,
};
use crate::model::{
    build_variant, decode_all, decode_target, decode_type, fetch, leaf_value, name_fields,
    populate, rebind,
};
use crate::value::{DecodeErrorView, FieldValueView, ValueView};

verus! {

/// The element that a field takes its one value from, if the node has it:
/// the node itself, its direct text, the first attribute of the field's
/// name, or the first child node of the field's tag name.
pub open spec fn source_element(n: NodeView, source: SourceView) -> Option<ElementView> {
    match source {
        SourceView::Flatten => Some(ElementView::Node(n)),
        SourceView::Text => Some(ElementView::Text(direct_text(n.children))),
        SourceView::Attribute(name) => match first_attribute(n.attributes, name) {
            Some(value) => Some(ElementView::Text(value)),
            None => None,
        },
        SourceView::Child(tag, _) => {
            let matches = children_named(n.children, tag);
            if matches.len() == 0 {
                None
            } else {
                Some(matches[0])
            }
        },
    }
}

/// The position of the variant that a value is of; none for a leaf.
pub open spec fn variant_of(v: ValueView) -> Option<int> {
    match v {
        ValueView::Leaf(_) => None,
        ValueView::Unit { variant, .. } => Some(variant),
        ValueView::Named { variant, .. } => Some(variant),
        ValueView::Unnamed { variant, .. } => Some(variant),
    }
}

/// Whether the element `e` is a way to write the value `v` of the enum
/// `descriptor`. This is what an encoder must hold to for its output to
/// decode to the value it wrote:
/// - a unit variant is written as a text leaf that equals the variant's
///   effective name, which no earlier unit variant shares;
/// - any variant is written as a node of the variant's effective name,
///   which no earlier variant shares, in which every field is written.
pub open spec fn encodes(e: ElementView, v: ValueView, descriptor: TypeView) -> bool
    decreases descriptor,
{
    let variants = descriptor.variants;
    match (e, variant_of(v)) {
        (ElementView::Text(s), Some(i)) => is_first_text_match(variants, s, i) && v
            == (ValueView::Unit { variant: i, name: variants[i].name }),
        (ElementView::Node(n), Some(i)) => is_first_node_match(variants, n.name, i)
            && encodes_variant(n, variants[i], v),
        _ => false,
    }
}

/// Whether the node writes the value `v` as a value of this variant: the
/// value has the variant's name and shape, and the node writes each of its
/// fields, a field of a struct-like variant under its own name.
pub open spec fn encodes_variant(n: NodeView, variant: VariantView, v: ValueView) -> bool
    decreases variant,
{
    match (v, variant.shape) {
        (ValueView::Unit { variant: _, name }, ShapeView::Unit) => name == variant.name,
        (ValueView::Named { variant: _, name, fields }, ShapeView::Named(declared)) => {
            &&& name == variant.name
            &&& fields.len() == declared.len()
            &&& forall|k: int|
                0 <= k < declared.len() ==> (#[trigger] fields[k]).0 == declared[k].name
                    && encodes_field(n, declared[k], fields[k].1)
        },
        (ValueView::Unnamed { variant: _, name, items }, ShapeView::Unnamed(declared)) => {
            &&& name == variant.name
            &&& items.len() == declared.len()
            &&& forall|k: int|
                0 <= k < declared.len() ==> encodes_field(n, declared[k], #[trigger] items[k])
        },
        _ => false,
    }
}

/// Whether the node writes the value of one field: a collection as one child
/// node of the field's tag name for each value, in order, and no other child
/// of that name; a bare or a filled optional value at the place the field
/// reads from; an empty optional value as nothing at that place. A bare
/// value belongs to a required field, a wrapped one to any other.
pub open spec fn encodes_field(n: NodeView, field: FieldView, value: FieldValueView) -> bool
    decreases field,
{
    match field.source {
        SourceView::Child(tag, Cardinality::Many) => match value {
            FieldValueView::Many(values) => {
                let matches = children_named(n.children, tag);
                &&& values.len() == matches.len()
                &&& forall|k: int|
                    0 <= k < matches.len() ==> encodes_target(
                        #[trigger] matches[k],
                        values[k],
                        field.target,
                    )
            },
            _ => false,
        },
        _ => match value {
            FieldValueView::One(v) => field.required && match source_element(n, field.source) {
                Some(e) => encodes_target(e, v, field.target),
                None => false,
            },
            FieldValueView::Optional(Some(v)) => !field.required && match source_element(
                n,
                field.source,
            ) {
                Some(e) => encodes_target(e, v, field.target),
                None => false,
            },
            FieldValueView::Optional(None) => !field.required && source_element(n, field.source)
                is None,
            FieldValueView::Many(_) => false,
        },
    }
}

/// Whether the element writes a value of a field's type: the text of a
/// primitive leaf, or a value of the enum.
pub open spec fn encodes_target(e: ElementView, v: ValueView, target: FieldTypeView) -> bool
    decreases target,
{
    match target {
        FieldTypeView::Leaf => leaf_value(e) == Ok::<ValueView, DecodeErrorView>(v),
        FieldTypeView::Enum(descriptor) => encodes(e, v, descriptor),
    }
}

/// Decoding gives back what was written, and nothing else: an element
/// decodes to a value exactly when it is a way to write that value. So an
/// encoder that holds to `encodes` round-trips, whatever the source kinds of
/// the fields are.
pub proof fn lemma_round_trip(e: ElementView, v: ValueView, descriptor: TypeView)
    ensures
        encodes(e, v, descriptor) <==> decode_type(e, descriptor) == Ok::<
            ValueView,
            DecodeErrorView,
        >(v),
    decreases descriptor, 1nat,
{
    match e {
        ElementView::Text(s) => {
            lemma_text_round_trip(s, v, descriptor);
        },
        ElementView::Node(n) => {
            lemma_node_round_trip(n, v, descriptor);
        },
        _ => {},
    }
}

proof fn lemma_text_round_trip(s: Seq<char>, v: ValueView, descriptor: TypeView)
    ensures
        encodes(ElementView::Text(s), v, descriptor) <==> decode_type(
            ElementView::Text(s),
            descriptor,
        ) == Ok::<ValueView, DecodeErrorView>(v),
{
    let variants = descriptor.variants;
    lemma_text_decoding(descriptor, s);
    if decode_type(ElementView::Text(s), descriptor) == Ok::<ValueView, DecodeErrorView>(v) {
        let i = choose|i: int| is_text_match(variants, s, i);
        let first = lemma_first_text_match(variants, s, i);
        assert(v == (ValueView::Unit { variant: first, name: variants[first].name }));
    }
}

proof fn lemma_first_match_wins(descriptor: TypeView, n: NodeView, i: int)
    requires
        is_first_node_match(descriptor.variants, n.name, i),
    ensures
        decode_type(ElementView::Node(n), descriptor) == build_variant(
            n,
            i,
            descriptor.variants[i],
        ),
{
    lemma_node_decoding(descriptor, n);
}

proof fn lemma_decoded_node_matches(descriptor: TypeView, n: NodeView) -> (first: int)
    requires
        decode_type(ElementView::Node(n), descriptor) is Ok,
    ensures
        is_first_node_match(descriptor.variants, n.name, first),
{
    lemma_node_decoding(descriptor, n);
    let i = choose|i: int| is_node_match(descriptor.variants, n.name, i);
    lemma_first_node_match(descriptor.variants, n.name, i)
}

proof fn lemma_node_round_trip(n: NodeView, v: ValueView, descriptor: TypeView)
    ensures
        encodes(ElementView::Node(n), v, descriptor) <==> decode_type(
            ElementView::Node(n),
            descriptor,
        ) == Ok::<ValueView, DecodeErrorView>(v),
    decreases descriptor, 0nat,
{
    let variants = descriptor.variants;
    let e = ElementView::Node(n);
    if decode_type(e, descriptor) == Ok::<ValueView, DecodeErrorView>(v) {
        let first = lemma_decoded_node_matches(descriptor, n);
        lemma_first_match_wins(descriptor, n, first);
        lemma_variant_round_trip(n, first, variants[first], v);
    }
    if encodes(e, v, descriptor) {
        let i = variant_of(v)->Some_0;
        lemma_first_match_wins(descriptor, n, i);
        lemma_variant_round_trip(n, i, variants[i], v);
    }
}

/// A variant builds to a value exactly when the value is of the variant's
/// position and the node writes it as a value of the variant.
proof fn lemma_variant_round_trip(n: NodeView, index: int, variant: VariantView, v: ValueView)
    ensures
        variant_of(v) == Some(index) && encodes_variant(n, variant, v) <==> build_variant(
            n,
            index,
            variant,
        ) == Ok::<ValueView, DecodeErrorView>(v),
    decreases variant,
{
    match variant.shape {
        ShapeView::Unit => {},
        ShapeView::Named(declared) => {
            if variant_of(v) == Some(index) && encodes_variant(n, variant, v) {
                let fields = v->Named_fields;
                let values = Seq::new(fields.len(), |k: int| fields[k].1);
                assert forall|k: int| 0 <= k < declared.len() implies encodes_field(
                    n,
                    declared[k],
                    #[trigger] values[k],
                ) by {
                    assert(fields[k].0 == declared[k].name);
                }
                lemma_fields_round_trip(n, declared, values);
                assert(name_fields(declared, values) =~= fields);
            }
            if build_variant(n, index, variant) == Ok::<ValueView, DecodeErrorView>(v) {
                let values = populate(n, declared)->Ok_0;
                lemma_fields_round_trip(n, declared, values);
                let fields = v->Named_fields;
                assert(fields == name_fields(declared, values));
                assert forall|k: int| 0 <= k < declared.len() implies (#[trigger] fields[k]).0
                    == declared[k].name && encodes_field(n, declared[k], fields[k].1) by {
                    assert(fields[k] == (declared[k].name, values[k]));
                    assert(encodes_field(n, declared[k], values[k]));
                }
            }
        },
        ShapeView::Unnamed(declared) => {
            if variant_of(v) == Some(index) && encodes_variant(n, variant, v) {
                lemma_fields_round_trip(n, declared, v->Unnamed_items);
            }
            if build_variant(n, index, variant) == Ok::<ValueView, DecodeErrorView>(v) {
                lemma_fields_round_trip(n, declared, populate(n, declared)->Ok_0);
            }
        },
    }
}

/// The fields of a variant populate to given values exactly when the node
/// writes each of the values for its field.
pub proof fn lemma_fields_round_trip(
    n: NodeView,
    fields: Seq<FieldView>,
    values: Seq<FieldValueView>,
)
    ensures
        (values.len() == fields.len() && forall|k: int|
            0 <= k < fields.len() ==> encodes_field(n, fields[k], #[trigger] values[k]))
            <==> populate(n, fields) == Ok::<Seq<FieldValueView>, DecodeErrorView>(values),
    decreases fields,
{
    lemma_populate_succeeds(n, fields);
    if values.len() == fields.len() && forall|k: int|
        0 <= k < fields.len() ==> encodes_field(n, fields[k], #[trigger] values[k]) {
        assert forall|i: int| 0 <= i < fields.len() implies (#[trigger] fetch(n, fields[i])) is Ok
            && !(fields[i].required && fetch(n, fields[i])->Ok_0 is Absent) by {
            assert(encodes_field(n, fields[i], values[i]));
            lemma_field_round_trip(n, fields[i], values[i]);
        }
        assert(populate(n, fields) is Ok);
        let got = populate(n, fields)->Ok_0;
        assert forall|i: int| 0 <= i < fields.len() implies got[i] == values[i] by {
            lemma_fields_read_independently(n, fields, i);
            assert(encodes_field(n, fields[i], values[i]));
            lemma_field_round_trip(n, fields[i], values[i]);
        }
        assert(got =~= values);
    }
    if populate(n, fields) == Ok::<Seq<FieldValueView>, DecodeErrorView>(values) {
        assert forall|k: int| 0 <= k < fields.len() implies encodes_field(
            n,
            fields[k],
            #[trigger] values[k],
        ) by {
            lemma_fields_read_independently(n, fields, k);
            assert(fetch(n, fields[k]) is Ok);
            lemma_field_round_trip(n, fields[k], values[k]);
        }
    }
}

/// The node writes a value for a field exactly when the field reads from
/// the node something that rebinds to the value, and is not missing.
pub proof fn lemma_field_round_trip(n: NodeView, field: FieldView, value: FieldValueView)
    ensures
        encodes_field(n, field, value) <==> fetch(n, field) is Ok && !(field.required && fetch(
            n,
            field,
        )->Ok_0 is Absent) && rebind(field, fetch(n, field)->Ok_0) == value,
    decreases field,
{
    match field.source {
        SourceView::Child(tag, Cardinality::Many) => {
            let matches = children_named(n.children, tag);
            match value {
                FieldValueView::Many(values) => {
                    lemma_list_round_trip(matches, values, field.target);
                },
                _ => {},
            }
        },
        _ => {
            match source_element(n, field.source) {
                Some(e) => {
                    match value {
                        FieldValueView::One(v) => {
                            lemma_target_round_trip(e, v, field.target);
                        },
                        FieldValueView::Optional(Some(v)) => {
                            lemma_target_round_trip(e, v, field.target);
                        },
                        _ => {},
                    }
                },
                None => {},
            }
        },
    }
}

/// A list of elements decodes to given values exactly when each element
/// writes the value at its place.
pub proof fn lemma_list_round_trip(
    elements: Seq<ElementView>,
    values: Seq<ValueView>,
    target: FieldTypeView,
)
    ensures
        (values.len() == elements.len() && forall|k: int|
            0 <= k < elements.len() ==> encodes_target(#[trigger] elements[k], values[k], target))
            <==> decode_all(elements, target) == Ok::<Seq<ValueView>, DecodeErrorView>(values),
    decreases target, elements.len(),
{
    lemma_decode_all_succeeds(elements, target);
    if values.len() == elements.len() && forall|k: int|
        0 <= k < elements.len() ==> encodes_target(#[trigger] elements[k], values[k], target) {
        assert forall|k: int| 0 <= k < elements.len() implies decode_target(
            #[trigger] elements[k],
            target,
        ) == Ok::<ValueView, DecodeErrorView>(values[k]) by {
            lemma_target_round_trip(elements[k], values[k], target);
        }
        lemma_decode_all_values(elements, target);
        let got = decode_all(elements, target)->Ok_0;
        assert forall|k: int| 0 <= k < elements.len() implies got[k] == values[k] by {
            assert(decode_target(elements[k], target) == Ok::<ValueView, DecodeErrorView>(got[k]));
        }
        assert(got =~= values);
    }
    if decode_all(elements, target) == Ok::<Seq<ValueView>, DecodeErrorView>(values) {
        lemma_decode_all_values(elements, target);
        assert forall|k: int| 0 <= k < elements.len() implies encodes_target(
            #[trigger] elements[k],
            values[k],
            target,
        ) by {
            lemma_target_round_trip(elements[k], values[k], target);
        }
    }
}

/// An element decodes to a value of a field's type exactly when it writes
/// that value.
pub proof fn lemma_target_round_trip(e: ElementView, v: ValueView, target: FieldTypeView)
    ensures
        encodes_target(e, v, target) <==> decode_target(e, target) == Ok::<
            ValueView,
            DecodeErrorView,
        >(v),
    decreases target, 0nat,
{
    match target {
        FieldTypeView::Leaf => {},
        FieldTypeView::Enum(descriptor) => {
            lemma_round_trip(e, v, descriptor);
        },
    }
}

} // verus!
