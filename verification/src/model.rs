//! What decoding means, over mathematical values. The contracts of the
//! executable functions are stated with the functions of this module.

use vstd::prelude::*;
use crate::descriptor::{
    Cardinality, FieldTypeView, FieldView, ShapeView, SourceView, TypeView, VariantView,
};
use crate::element::{children_named, direct_text, first_attribute, ElementView, NodeView};
use crate::value::{DecodeErrorView, FieldValueView, LeafKind, ValueView};

verus! {

/// The outcome of a decode, over mathematical values.
pub type Decoded = Result<ValueView, DecodeErrorView>;

/// What a field's storage slot holds once the node has been read.
pub ghost enum SlotView {
    /// Nothing was found for the field.
    Absent,
    /// The field's one value.
    One(ValueView),
    /// The values of a field that collects every match.
    Many(Seq<ValueView>),
}

/// The outcome of reading one field from a node.
pub type Fetched = Result<SlotView, DecodeErrorView>;

/// The value of a primitive leaf: the string of a text leaf, the direct text
/// of a node.
pub open spec fn leaf_value(e: ElementView) -> Decoded {
    match e {
        ElementView::Text(s) => Ok(ValueView::Leaf(s)),
        ElementView::Node(n) => Ok(ValueView::Leaf(direct_text(n.children))),
        ElementView::Whitespace(_) => Err(DecodeErrorView::UnexpectedLeafKind(LeafKind::Whitespace)),
        ElementView::Comment(_) => Err(DecodeErrorView::UnexpectedLeafKind(LeafKind::Comment)),
        ElementView::CData(_) => Err(DecodeErrorView::UnexpectedLeafKind(LeafKind::CData)),
    }
}

/// The position of the first unit variant at or after `start` whose effective
/// name is `text`.
pub open spec fn text_match_from(variants: Seq<VariantView>, text: Seq<char>, start: nat) -> Option<
    int,
>
    decreases variants.len() - start,
{
    if start >= variants.len() {
        None
    } else if variants[start as int].is_unit() && variants[start as int].effective_name() == text {
        Some(start as int)
    } else {
        text_match_from(variants, text, start + 1)
    }
}

/// What a text leaf decodes to: the first unit variant of that effective name.
pub open spec fn decode_text(text: Seq<char>, descriptor: TypeView) -> Decoded {
    match text_match_from(descriptor.variants, text, 0) {
        Some(i) => Ok(ValueView::Unit { variant: i, name: descriptor.variants[i].name }),
        None => Err(DecodeErrorView::NoVariantMatchedText),
    }
}

/// What an element decodes to as a value of the enum `descriptor`.
pub open spec fn decode_type(e: ElementView, descriptor: TypeView) -> Decoded
    decreases descriptor, 1nat, 0nat,
{
    match e {
        ElementView::Text(s) => decode_text(s, descriptor),
        ElementView::Node(n) => decode_node_from(n, descriptor.variants, 0),
        ElementView::Whitespace(_) => Err(DecodeErrorView::UnexpectedLeafKind(LeafKind::Whitespace)),
        ElementView::Comment(_) => Err(DecodeErrorView::UnexpectedLeafKind(LeafKind::Comment)),
        ElementView::CData(_) => Err(DecodeErrorView::UnexpectedLeafKind(LeafKind::CData)),
    }
}

/// What a node decodes to when only the variants at or after `start` are
/// tried: the first of them whose effective name is the node's tag name is
/// built, whatever comes after it.
pub open spec fn decode_node_from(n: NodeView, variants: Seq<VariantView>, start: nat) -> Decoded
    decreases variants, 0nat, variants.len() - start,
{
    if start >= variants.len() {
        Err(DecodeErrorView::NoVariantMatchedNode(n.name))
    } else if variants[start as int].effective_name() == n.name {
        build_variant(n, start as int, variants[start as int])
    } else {
        decode_node_from(n, variants, start + 1)
    }
}

/// The value of the variant at position `index`, built from a node whose tag
/// name matched it.
pub open spec fn build_variant(n: NodeView, index: int, variant: VariantView) -> Decoded
    decreases variant, 0nat, 0nat,
{
    match variant.shape {
        ShapeView::Unit => Ok(ValueView::Unit { variant: index, name: variant.name }),
        ShapeView::Named(fields) => match populate(n, fields) {
            Ok(values) => Ok(
                ValueView::Named {
                    variant: index,
                    name: variant.name,
                    fields: name_fields(fields, values),
                },
            ),
            Err(e) => Err(e),
        },
        ShapeView::Unnamed(fields) => match populate(n, fields) {
            Ok(values) => Ok(
                ValueView::Unnamed { variant: index, name: variant.name, items: values },
            ),
            Err(e) => Err(e),
        },
    }
}

/// What each field reads from the node, by position, each on its own.
pub open spec fn fetch_all(n: NodeView, fields: Seq<FieldView>) -> Seq<Fetched>
    decreases fields, 0nat, 1nat,
{
    Seq::new(
        fields.len(),
        |i: int|
            if 0 <= i < fields.len() {
                fetch(n, fields[i])
            } else {
                Ok(SlotView::Absent)
            },
    )
}

/// The final values of a variant's fields, by slot, or the first failure.
pub open spec fn populate(n: NodeView, fields: Seq<FieldView>) -> Result<
    Seq<FieldValueView>,
    DecodeErrorView,
>
    decreases fields, 0nat, 2nat,
{
    assemble(fields, fetch_all(n, fields))
}

/// What one field reads from the node.
pub open spec fn fetch(n: NodeView, field: FieldView) -> Fetched
    decreases field, 0nat, 0nat,
{
    match field.source {
        SourceView::Flatten => one(decode_target(ElementView::Node(n), field.target)),
        SourceView::Text => one(
            decode_target(ElementView::Text(direct_text(n.children)), field.target),
        ),
        SourceView::Attribute(name) => match first_attribute(n.attributes, name) {
            Some(value) => one(decode_target(ElementView::Text(value), field.target)),
            None => Ok(SlotView::Absent),
        },
        SourceView::Child(tag, cardinality) => {
            let matches = children_named(n.children, tag);
            if cardinality == Cardinality::Many {
                match decode_all(matches, field.target) {
                    Ok(values) => Ok(SlotView::Many(values)),
                    Err(e) => Err(e),
                }
            } else if matches.len() == 0 {
                Ok(SlotView::Absent)
            } else {
                one(decode_target(matches[0], field.target))
            }
        },
    }
}

/// A decoded value as the content of a slot.
pub open spec fn one(decoded: Decoded) -> Fetched {
    match decoded {
        Ok(v) => Ok(SlotView::One(v)),
        Err(e) => Err(e),
    }
}

/// The values of all these elements in order, or the failure of the first
/// that fails.
pub open spec fn decode_all(elements: Seq<ElementView>, target: FieldTypeView) -> Result<
    Seq<ValueView>,
    DecodeErrorView,
>
    decreases target, 1nat, elements.len(),
{
    if elements.len() == 0 {
        Ok(Seq::empty())
    } else {
        match decode_all(elements.drop_last(), target) {
            Err(e) => Err(e),
            Ok(values) => match decode_target(elements.last(), target) {
                Ok(v) => Ok(values.push(v)),
                Err(e) => Err(e),
            },
        }
    }
}

/// What an element decodes to as a value of a field's type.
pub open spec fn decode_target(e: ElementView, target: FieldTypeView) -> Decoded
    decreases target, 0nat, 0nat,
{
    match target {
        FieldTypeView::Leaf => leaf_value(e),
        FieldTypeView::Enum(descriptor) => decode_type(e, descriptor),
    }
}

/// The number of the pass that reads a field: flatten fields are read in
/// pass 0, the text field in 1, attributes in 2, children in 3.
pub open spec fn pass_of(field: FieldView) -> int {
    match field.source {
        SourceView::Flatten => 0,
        SourceView::Text => 1,
        SourceView::Attribute(_) => 2,
        SourceView::Child(_, _) => 3,
    }
}

/// Whether `i` is the position of a field that is read in the pass numbered
/// `pass`.
pub open spec fn in_pass(fields: Seq<FieldView>, pass: int, i: int) -> bool {
    0 <= i < fields.len() && pass == pass_of(fields[i])
}

/// The positions `0, 1, ..` below `n`, in order.
pub open spec fn positions(n: nat) -> Seq<int> {
    Seq::new(n, |i: int| i)
}

/// Membership in one pass, as a predicate on positions.
pub open spec fn pass_filter(fields: Seq<FieldView>, pass: int) -> spec_fn(int) -> bool {
    |i: int| in_pass(fields, pass, i)
}

/// The positions of the fields of one pass, in declaration order.
pub open spec fn pass_positions(fields: Seq<FieldView>, pass: int) -> Seq<int> {
    positions(fields.len()).filter(pass_filter(fields, pass))
}

/// The order in which the fields are read: flatten, then text, then
/// attributes, then children.
pub open spec fn pass_order(fields: Seq<FieldView>) -> Seq<int> {
    pass_positions(fields, 0) + pass_positions(fields, 1) + pass_positions(fields, 2)
        + pass_positions(fields, 3)
}

/// The failure of the first position in `order` whose read failed.
pub open spec fn first_failure(order: Seq<int>, fetched: Seq<Fetched>) -> Option<DecodeErrorView>
    decreases order.len(),
{
    if order.len() == 0 {
        None
    } else {
        match first_failure(order.drop_last(), fetched) {
            Some(e) => Some(e),
            None => match fetched[order.last()] {
                Err(e) => Some(e),
                Ok(_) => None,
            },
        }
    }
}

/// The position of the first required field at or after `start` whose slot
/// holds nothing.
pub open spec fn first_missing(fields: Seq<FieldView>, slots: Seq<SlotView>, start: nat) -> Option<
    int,
>
    decreases fields.len() - start,
{
    if start >= fields.len() {
        None
    } else if fields[start as int].required && slots[start as int] is Absent {
        Some(start as int)
    } else {
        first_missing(fields, slots, start + 1)
    }
}

/// The final value of a field from what its slot holds: a collection as it
/// is, the value of a required field bare, that of another field wrapped.
pub open spec fn rebind(field: FieldView, slot: SlotView) -> FieldValueView {
    match slot {
        SlotView::Many(values) => FieldValueView::Many(values),
        SlotView::One(v) => if field.required {
            FieldValueView::One(v)
        } else {
            FieldValueView::Optional(Some(v))
        },
        SlotView::Absent => FieldValueView::Optional(None),
    }
}

/// The final values by slot from what the slots hold: the first required
/// field whose slot holds nothing fails, else every slot is rebound.
pub open spec fn rebind_all(fields: Seq<FieldView>, slots: Seq<SlotView>) -> Result<
    Seq<FieldValueView>,
    DecodeErrorView,
> {
    match first_missing(fields, slots, 0) {
        Some(i) => Err(DecodeErrorView::MissingRequiredField(fields[i].slot)),
        None => Ok(Seq::new(fields.len(), |i: int| rebind(fields[i], slots[i]))),
    }
}

/// What the slots hold when no read failed.
pub open spec fn slots_of(fetched: Seq<Fetched>) -> Seq<SlotView> {
    Seq::new(fetched.len(), |i: int| fetched[i]->Ok_0)
}

/// The final values by slot from what each field read: the first failed read
/// in pass order, else what rebinding the slots gives.
pub open spec fn assemble(fields: Seq<FieldView>, fetched: Seq<Fetched>) -> Result<
    Seq<FieldValueView>,
    DecodeErrorView,
> {
    match first_failure(pass_order(fields), fetched) {
        Some(e) => Err(DecodeErrorView::DelegateFailure(Box::new(e))),
        None => rebind_all(fields, slots_of(fetched)),
    }
}

/// The fields of a struct-like variant: each value under its field's name.
pub open spec fn name_fields(fields: Seq<FieldView>, values: Seq<FieldValueView>) -> Seq<
    (Seq<char>, FieldValueView),
> {
    Seq::new(values.len(), |i: int| (fields[i].name, values[i]))
}

/// A position stands in the list of a pass exactly when its field is read in
/// that pass.
pub proof fn lemma_pass_membership(fields: Seq<FieldView>, pass: int, i: int)
    ensures
        pass_positions(fields, pass).contains(i) <==> in_pass(fields, pass, i),
{
    let all = positions(fields.len());
    let pred = pass_filter(fields, pass);
    if all.filter(pred).contains(i) {
        let k = choose|k: int| 0 <= k < all.filter(pred).len() && all.filter(pred)[k] == i;
        all.lemma_filter_pred(pred, k);
    }
    if in_pass(fields, pass, i) {
        assert(all[i] == i);
        all.lemma_filter_contains(pred, i);
    }
}

/// Reading two lists of positions one after the other fails where the first
/// list fails, else where the second does.
pub proof fn lemma_first_failure_concat(a: Seq<int>, b: Seq<int>, fetched: Seq<Fetched>)
    ensures
        first_failure(a + b, fetched) == match first_failure(a, fetched) {
            Some(e) => Some(e),
            None => first_failure(b, fetched),
        },
    decreases b.len(),
{
    if b.len() == 0 {
        assert(a + b == a);
    } else {
        assert((a + b).drop_last() == a + b.drop_last());
        assert((a + b).last() == b.last());
        lemma_first_failure_concat(a, b.drop_last(), fetched);
    }
}

/// Once the elements up to some point fail, so does the whole list, with the
/// same failure.
pub proof fn lemma_decode_all_failure(
    elements: Seq<ElementView>,
    target: FieldTypeView,
    k: int,
)
    requires
        0 <= k <= elements.len(),
        decode_all(elements.take(k), target) is Err,
    ensures
        decode_all(elements, target) == decode_all(elements.take(k), target),
    decreases elements.len() - k,
{
    if k == elements.len() {
        assert(elements.take(k) == elements);
    } else {
        assert(elements.take(k + 1).drop_last() == elements.take(k));
        lemma_decode_all_failure(elements, target, k + 1);
    }
}

/// A failure among the first positions of a list is the failure of the list.
pub proof fn lemma_first_failure_prefix(order: Seq<int>, fetched: Seq<Fetched>, k: int)
    requires
        0 <= k <= order.len(),
        first_failure(order.take(k), fetched) is Some,
    ensures
        first_failure(order, fetched) == first_failure(order.take(k), fetched),
    decreases order.len() - k,
{
    if k == order.len() {
        assert(order.take(k) == order);
    } else {
        assert(order.take(k + 1).drop_last() == order.take(k));
        lemma_first_failure_prefix(order, fetched, k + 1);
    }
}

} // verus!
