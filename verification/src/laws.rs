//! What holds of decoding for every descriptor and every element.

use vstd::prelude::*;
use crate::classifier::{
    classified, field_fault, fields_fault_from, has_text_before, type_fault_from, variant_fault,
    AnnotationsView,
};
use crate::descriptor::{
    Cardinality, ContainerShape, FieldTypeView, FieldView, ShapeView, SourceView, TypeView,
    VariantView,
};
use crate::element::{
    attribute_from, children_named, direct_text, first_attribute, ElementView, NodeView,
};
use crate::model::{
    assemble, build_variant, decode_all, decode_node_from, decode_target, decode_type, fetch,
    fetch_all, first_failure, first_missing, in_pass, lemma_first_failure_prefix,
    lemma_pass_membership, pass_filter, pass_of,
    pass_order, pass_positions, populate, positions, rebind, slots_of, text_match_from, Fetched,
    SlotView,
};
use crate::plan::plan_of;
use crate::value::{DecodeErrorView, FieldValueView, ValueView};

verus! {

/// Whether the variant at position `i` is a unit variant whose effective
/// name is `text`.
pub open spec fn is_text_match(variants: Seq<VariantView>, text: Seq<char>, i: int) -> bool {
    0 <= i < variants.len() && variants[i].is_unit() && variants[i].effective_name() == text
}

/// Whether the variant at position `i` has the effective name `name`.
pub open spec fn is_node_match(variants: Seq<VariantView>, name: Seq<char>, i: int) -> bool {
    0 <= i < variants.len() && variants[i].effective_name() == name
}

/// Whether the variant at position `i` is the first unit variant whose
/// effective name is `text`.
pub open spec fn is_first_text_match(variants: Seq<VariantView>, text: Seq<char>, i: int) -> bool {
    is_text_match(variants, text, i) && forall|j: int|
        0 <= j < i ==> !is_text_match(variants, text, j)
}

/// Whether the variant at position `i` is the first whose effective name is
/// `name`.
pub open spec fn is_first_node_match(variants: Seq<VariantView>, name: Seq<char>, i: int) -> bool {
    is_node_match(variants, name, i) && forall|j: int|
        0 <= j < i ==> !is_node_match(variants, name, j)
}

/// Where a unit variant has the effective name `text`, one of them is the
/// first.
pub proof fn lemma_first_text_match(variants: Seq<VariantView>, text: Seq<char>, i: int) -> (first:
    int)
    requires
        is_text_match(variants, text, i),
    ensures
        is_first_text_match(variants, text, first),
        first <= i,
    decreases i,
{
    if exists|j: int| 0 <= j < i && is_text_match(variants, text, j) {
        let j = choose|j: int| 0 <= j < i && is_text_match(variants, text, j);
        lemma_first_text_match(variants, text, j)
    } else {
        i
    }
}

/// Where a variant has the effective name `name`, one of them is the first.
pub proof fn lemma_first_node_match(variants: Seq<VariantView>, name: Seq<char>, i: int) -> (first:
    int)
    requires
        is_node_match(variants, name, i),
    ensures
        is_first_node_match(variants, name, first),
        first <= i,
    decreases i,
{
    if exists|j: int| 0 <= j < i && is_node_match(variants, name, j) {
        let j = choose|j: int| 0 <= j < i && is_node_match(variants, name, j);
        lemma_first_node_match(variants, name, j)
    } else {
        i
    }
}

proof fn lemma_text_match_from(variants: Seq<VariantView>, text: Seq<char>, start: nat)
    ensures
        match text_match_from(variants, text, start) {
            Some(i) => start <= i && is_text_match(variants, text, i) && forall|j: int|
                start <= j < i ==> !is_text_match(variants, text, j),
            None => forall|j: int| start <= j ==> !is_text_match(variants, text, j),
        },
    decreases variants.len() - start,
{
    if start < variants.len() && !is_text_match(variants, text, start as int) {
        lemma_text_match_from(variants, text, start + 1);
    }
}

/// A text leaf decodes exactly when it equals the effective name of some
/// unit variant. It then gives the first such variant in declaration order,
/// and otherwise fails as a text that no variant matched.
pub proof fn lemma_text_decoding(descriptor: TypeView, text: Seq<char>)
    ensures
        decode_type(ElementView::Text(text), descriptor) is Ok <==> exists|i: int|
            is_text_match(descriptor.variants, text, i),
        forall|i: int| #[trigger]
            is_first_text_match(descriptor.variants, text, i) ==> decode_type(
                ElementView::Text(text),
                descriptor,
            ) == Ok::<ValueView, DecodeErrorView>(
                ValueView::Unit { variant: i, name: descriptor.variants[i].name },
            ),
        (forall|i: int| !is_text_match(descriptor.variants, text, i)) ==> decode_type(
            ElementView::Text(text),
            descriptor,
        ) == Err::<ValueView, DecodeErrorView>(DecodeErrorView::NoVariantMatchedText),
{
    lemma_text_match_from(descriptor.variants, text, 0);
    let found = text_match_from(descriptor.variants, text, 0);
    assert forall|i: int| #[trigger]
        is_first_text_match(descriptor.variants, text, i) implies found == Some(i) by {
        let k = found->Some_0;
        if k < i {
            assert(!is_text_match(descriptor.variants, text, k));
        }
    }
}

/// Populating fields never fails as a node that no variant matched.
proof fn lemma_build_variant_outcome(n: NodeView, index: int, variant: VariantView)
    ensures
        !(build_variant(n, index, variant) matches Err(DecodeErrorView::NoVariantMatchedNode(_))),
{
    match variant.shape {
        ShapeView::Unit => {},
        ShapeView::Named(fields) => {
            assert(populate(n, fields) == assemble(fields, fetch_all(n, fields)));
        },
        ShapeView::Unnamed(fields) => {
            assert(populate(n, fields) == assemble(fields, fetch_all(n, fields)));
        },
    }
}

proof fn lemma_decode_node_from(n: NodeView, variants: Seq<VariantView>, start: nat)
    ensures
        (forall|j: int| start <= j ==> !is_node_match(variants, n.name, j)) ==> decode_node_from(
            n,
            variants,
            start,
        ) == Err::<ValueView, DecodeErrorView>(DecodeErrorView::NoVariantMatchedNode(n.name)),
        forall|i: int|
            start <= i && is_node_match(variants, n.name, i) && (forall|j: int|
                start <= j < i ==> !is_node_match(variants, n.name, j)) ==> decode_node_from(
                n,
                variants,
                start,
            ) == build_variant(n, i, variants[i]),
    decreases variants.len() - start,
{
    if start < variants.len() && !is_node_match(variants, n.name, start as int) {
        lemma_decode_node_from(n, variants, start + 1);
        assert forall|i: int|
            start <= i && is_node_match(variants, n.name, i) && (forall|j: int|
                start <= j < i ==> !is_node_match(variants, n.name, j)) implies decode_node_from(
            n,
            variants,
            start,
        ) == build_variant(n, i, variants[i]) by {
            assert(start + 1 <= i);
        }
    } else if start < variants.len() {
        assert forall|i: int|
            start <= i && is_node_match(variants, n.name, i) && (forall|j: int|
                start <= j < i ==> !is_node_match(variants, n.name, j)) implies i == start by {
            if start < i {
                assert(!is_node_match(variants, n.name, start as int));
            }
        }
    }
}

/// A node whose tag name is the effective name of no variant fails as a node
/// that no variant matched, and no other node fails so. A node whose tag
/// name some variant has decodes to whatever building the first such variant
/// in declaration order gives, whatever the later variants are.
pub proof fn lemma_node_decoding(descriptor: TypeView, n: NodeView)
    ensures
        (forall|i: int| !is_node_match(descriptor.variants, n.name, i)) <==> decode_type(
            ElementView::Node(n),
            descriptor,
        ) == Err::<ValueView, DecodeErrorView>(DecodeErrorView::NoVariantMatchedNode(n.name)),
        forall|i: int| #[trigger]
            is_first_node_match(descriptor.variants, n.name, i) ==> decode_type(
                ElementView::Node(n),
                descriptor,
            ) == build_variant(n, i, descriptor.variants[i]),
{
    lemma_decode_node_from(n, descriptor.variants, 0);
    if exists|i: int| is_node_match(descriptor.variants, n.name, i) {
        let i = choose|i: int| is_node_match(descriptor.variants, n.name, i);
        let first = lemma_first_node_match(descriptor.variants, n.name, i);
        lemma_build_variant_outcome(n, first, descriptor.variants[first]);
    }
}

/// Where the fields of the first variant that a node matches can be
/// populated from the node, the node decodes exactly when its tag name is
/// the effective name of some variant.
pub proof fn lemma_node_decoding_succeeds(descriptor: TypeView, n: NodeView)
    requires
        forall|i: int| #[trigger]
            is_first_node_match(descriptor.variants, n.name, i) ==> build_variant(
                n,
                i,
                descriptor.variants[i],
            ) is Ok,
    ensures
        decode_type(ElementView::Node(n), descriptor) is Ok <==> exists|i: int|
            is_node_match(descriptor.variants, n.name, i),
{
    lemma_node_decoding(descriptor, n);
    if exists|i: int| is_node_match(descriptor.variants, n.name, i) {
        let i = choose|i: int| is_node_match(descriptor.variants, n.name, i);
        let first = lemma_first_node_match(descriptor.variants, n.name, i);
    }
}

/// Whether the node holds nothing for the field: no attribute of its name,
/// or no child node of its tag name where it takes at most one. The node's
/// text and the node itself are always there, and so is a collection.
pub open spec fn absent_from(n: NodeView, field: FieldView) -> bool {
    match field.source {
        SourceView::Attribute(name) => first_attribute(n.attributes, name) is None,
        SourceView::Child(tag, cardinality) => cardinality != Cardinality::Many && children_named(
            n.children,
            tag,
        ).len() == 0,
        SourceView::Text => false,
        SourceView::Flatten => false,
    }
}

/// A field's slot stays empty exactly when the node holds nothing for it.
pub proof fn lemma_absence(n: NodeView, field: FieldView)
    ensures
        fetch(n, field) == Ok::<SlotView, DecodeErrorView>(SlotView::Absent) <==> absent_from(
            n,
            field,
        ),
{
}

proof fn lemma_first_missing(fields: Seq<FieldView>, slots: Seq<SlotView>, start: nat)
    ensures
        match first_missing(fields, slots, start) {
            Some(i) => start <= i < fields.len() && fields[i].required && slots[i] is Absent
                && forall|j: int| start <= j < i ==> !(fields[j].required && slots[j] is Absent),
            None => forall|j: int|
                start <= j < fields.len() ==> !(fields[j].required && slots[j] is Absent),
        },
    decreases fields.len() - start,
{
    if start < fields.len() && !(fields[start as int].required && slots[start as int] is Absent) {
        lemma_first_missing(fields, slots, start + 1);
    }
}

proof fn lemma_no_failure(order: Seq<int>, fetched: Seq<Fetched>)
    ensures
        first_failure(order, fetched) is None <==> forall|k: int|
            0 <= k < order.len() ==> fetched[#[trigger] order[k]] is Ok,
    decreases order.len(),
{
    if order.len() > 0 {
        lemma_no_failure(order.drop_last(), fetched);
        if first_failure(order, fetched) is None {
            assert forall|k: int| 0 <= k < order.len() implies fetched[#[trigger] order[k]] is Ok by {
                if k < order.len() - 1 {
                    assert(order.drop_last()[k] == order[k]);
                }
            }
        } else {
            if first_failure(order.drop_last(), fetched) is Some {
                let k = choose|k: int|
                    0 <= k < order.drop_last().len() && !(fetched[#[trigger] order.drop_last()[k]] is Ok);
                assert(order[k] == order.drop_last()[k]);
            } else {
                assert(order[order.len() - 1] == order.last());
            }
        }
    }
}

/// Every position is read in exactly one pass, and the reading order holds
/// every position.
proof fn lemma_pass_order_complete(fields: Seq<FieldView>, i: int)
    requires
        0 <= i < fields.len(),
    ensures
        pass_order(fields).contains(i),
{
    lemma_pass_membership(fields, 0, i);
    lemma_pass_membership(fields, 1, i);
    lemma_pass_membership(fields, 2, i);
    lemma_pass_membership(fields, 3, i);
    let flats = pass_positions(fields, 0);
    let texts = pass_positions(fields, 1);
    let attrs = pass_positions(fields, 2);
    let kids = pass_positions(fields, 3);
    let p = if in_pass(fields, 0, i) {
        flats
    } else if in_pass(fields, 1, i) {
        texts
    } else if in_pass(fields, 2, i) {
        attrs
    } else {
        kids
    };
    assert(p.contains(i));
    let k = choose|k: int| 0 <= k < p.len() && p[k] == i;
    if in_pass(fields, 0, i) {
        assert(pass_order(fields)[k] == i);
    } else if in_pass(fields, 1, i) {
        assert(pass_order(fields)[flats.len() + k] == i);
    } else if in_pass(fields, 2, i) {
        assert(pass_order(fields)[flats.len() + texts.len() + k] == i);
    } else {
        assert(pass_order(fields)[flats.len() + texts.len() + attrs.len() + k] == i);
    }
}

/// The reading order holds positions of fields only.
proof fn lemma_pass_order_in_range(fields: Seq<FieldView>, k: int)
    requires
        0 <= k < pass_order(fields).len(),
    ensures
        0 <= pass_order(fields)[k] < fields.len(),
{
    let flats = pass_positions(fields, 0);
    let texts = pass_positions(fields, 1);
    let attrs = pass_positions(fields, 2);
    let kids = pass_positions(fields, 3);
    let i = pass_order(fields)[k];
    if k < flats.len() {
        assert(flats[k] == i);
        assert(flats.contains(i));
        lemma_pass_membership(fields, 0, i);
    } else if k < flats.len() + texts.len() {
        assert(texts[k - flats.len()] == i);
        assert(texts.contains(i));
        lemma_pass_membership(fields, 1, i);
    } else if k < flats.len() + texts.len() + attrs.len() {
        assert(attrs[k - flats.len() - texts.len()] == i);
        assert(attrs.contains(i));
        lemma_pass_membership(fields, 2, i);
    } else {
        assert(kids[k - flats.len() - texts.len() - attrs.len()] == i);
        assert(kids.contains(i));
        lemma_pass_membership(fields, 3, i);
    }
}

/// Populating fails on a read exactly when the read of some field fails.
proof fn lemma_reads(n: NodeView, fields: Seq<FieldView>)
    ensures
        first_failure(pass_order(fields), fetch_all(n, fields)) is None <==> forall|i: int|
            0 <= i < fields.len() ==> (#[trigger] fetch(n, fields[i])) is Ok,
{
    let order = pass_order(fields);
    let fetched = fetch_all(n, fields);
    lemma_no_failure(order, fetched);
    if first_failure(order, fetched) is None {
        assert forall|i: int| 0 <= i < fields.len() implies (#[trigger] fetch(n, fields[i])) is Ok by {
            lemma_pass_order_complete(fields, i);
            let k = choose|k: int| 0 <= k < order.len() && order[k] == i;
            assert(fetched[order[k]] is Ok);
        }
    }
    if forall|i: int| 0 <= i < fields.len() ==> (#[trigger] fetch(n, fields[i])) is Ok {
        assert forall|k: int| 0 <= k < order.len() implies fetched[#[trigger] order[k]] is Ok by {
            lemma_pass_order_in_range(fields, k);
            assert(fetch(n, fields[order[k]]) is Ok);
        }
    }
}

/// Each field reads the node on its own: where populating succeeds, the
/// value of a field is what that field alone reads from the node, rebound,
/// whatever the other fields of the variant are and whatever they read.
pub proof fn lemma_fields_read_independently(n: NodeView, fields: Seq<FieldView>, i: int)
    requires
        0 <= i < fields.len(),
        populate(n, fields) is Ok,
    ensures
        fetch(n, fields[i]) is Ok,
        populate(n, fields)->Ok_0.len() == fields.len(),
        populate(n, fields)->Ok_0[i] == rebind(fields[i], fetch(n, fields[i])->Ok_0),
{
    lemma_reads(n, fields);
    assert(fetch(n, fields[i]) is Ok);
}

/// Whether the field at position `j` is read before the field at position
/// `i`: in an earlier pass, or in the same pass and declared earlier.
pub open spec fn read_before(fields: Seq<FieldView>, j: int, i: int) -> bool {
    pass_of(fields[j]) < pass_of(fields[i]) || (pass_of(fields[j]) == pass_of(fields[i]) && j
        < i)
}

/// The pass of the position at index `k` of the reading order, and where
/// the list of that pass begins in the order.
proof fn lemma_pass_order_at(fields: Seq<FieldView>, k: int) -> (at: (int, int))
    requires
        0 <= k < pass_order(fields).len(),
    ensures
        0 <= at.0 < 4,
        0 <= k - at.1 < pass_positions(fields, at.0).len(),
        pass_order(fields)[k] == pass_positions(fields, at.0)[k - at.1],
        in_pass(fields, at.0, pass_order(fields)[k]),
        at.1 == if at.0 == 0 {
            0
        } else if at.0 == 1 {
            pass_positions(fields, 0).len() as int
        } else if at.0 == 2 {
            (pass_positions(fields, 0).len() + pass_positions(fields, 1).len()) as int
        } else {
            (pass_positions(fields, 0).len() + pass_positions(fields, 1).len() + pass_positions(
                fields,
                2,
            ).len()) as int
        },
{
    let flats = pass_positions(fields, 0);
    let texts = pass_positions(fields, 1);
    let attrs = pass_positions(fields, 2);
    let at = if k < flats.len() {
        (0int, 0int)
    } else if k < flats.len() + texts.len() {
        (1int, flats.len() as int)
    } else if k < flats.len() + texts.len() + attrs.len() {
        (2int, (flats.len() + texts.len()) as int)
    } else {
        (3int, (flats.len() + texts.len() + attrs.len()) as int)
    };
    let list = pass_positions(fields, at.0);
    assert(pass_order(fields)[k] == list[k - at.1]);
    assert(list.contains(list[k - at.1]));
    lemma_pass_membership(fields, at.0, list[k - at.1]);
    at
}

/// The reading order goes pass by pass, and by declaration within a pass.
proof fn lemma_pass_order_sorted(fields: Seq<FieldView>, a: int, b: int)
    requires
        0 <= a < b < pass_order(fields).len(),
    ensures
        read_before(fields, pass_order(fields)[a], pass_order(fields)[b]),
{
    let at_a = lemma_pass_order_at(fields, a);
    let at_b = lemma_pass_order_at(fields, b);
    if at_a.0 == at_b.0 {
        lemma_filtered_positions(
            fields.len(),
            pass_filter(fields, at_a.0),
            fields.len() as int,
        );
        assert(positions(fields.len()).take(fields.len() as int) == positions(fields.len()));
    }
}

/// The passes run in a fixed order, and a failed read ends them: where the
/// read of a field fails and every field that is read before it can be
/// read, populating fails with that failure, wrapped as it is.
pub proof fn lemma_first_failure_wins(n: NodeView, fields: Seq<FieldView>, i: int)
    requires
        0 <= i < fields.len(),
        fetch(n, fields[i]) is Err,
        forall|j: int|
            0 <= j < fields.len() && read_before(fields, j, i) ==> (#[trigger] fetch(
                n,
                fields[j],
            )) is Ok,
    ensures
        populate(n, fields) == Err::<Seq<FieldValueView>, DecodeErrorView>(
            DecodeErrorView::DelegateFailure(Box::new(fetch(n, fields[i])->Err_0)),
        ),
{
    let order = pass_order(fields);
    let fetched = fetch_all(n, fields);
    lemma_pass_order_complete(fields, i);
    let k = choose|k: int| 0 <= k < order.len() && order[k] == i;
    let before = order.take(k);
    lemma_no_failure(before, fetched);
    assert forall|a: int| 0 <= a < before.len() implies fetched[#[trigger] before[a]] is Ok by {
        lemma_pass_order_sorted(fields, a, k);
        lemma_pass_order_in_range(fields, a);
        assert(before[a] == order[a]);
        assert(fetch(n, fields[order[a]]) is Ok);
    }
    assert(order.take(k + 1).drop_last() == before);
    assert(order.take(k + 1).last() == i);
    assert(fetched[i] == fetch(n, fields[i]));
    lemma_first_failure_prefix(order, fetched, k + 1);
}

/// Populating fails in two ways only: with the failure of the read of one of
/// the fields, wrapped and otherwise as it was, or with the slot of a
/// required field for which the node holds nothing.
pub proof fn lemma_failure_kinds(n: NodeView, fields: Seq<FieldView>)
    ensures
        match populate(n, fields) {
            Ok(_) => true,
            Err(DecodeErrorView::DelegateFailure(inner)) => exists|i: int|
                0 <= i < fields.len() && (#[trigger] fetch(n, fields[i])) == Err::<
                    SlotView,
                    DecodeErrorView,
                >(*inner),
            Err(DecodeErrorView::MissingRequiredField(slot)) => exists|i: int|
                0 <= i < fields.len() && (#[trigger] fields[i]).slot == slot && fields[i].required
                    && absent_from(n, fields[i]),
            Err(_) => false,
        },
{
    let order = pass_order(fields);
    let fetched = fetch_all(n, fields);
    let slots = slots_of(fetched);
    match first_failure(order, fetched) {
        Some(e) => {
            let k = lemma_failure_place(order, fetched);
            lemma_pass_order_in_range(fields, k);
            assert(fetch(n, fields[order[k]]) == Err::<SlotView, DecodeErrorView>(e));
        },
        None => {
            lemma_reads(n, fields);
            lemma_first_missing(fields, slots, 0);
            if first_missing(fields, slots, 0) is Some {
                let i = first_missing(fields, slots, 0)->Some_0;
                assert(fetch(n, fields[i]) is Ok);
                assert(slots[i] == fetch(n, fields[i])->Ok_0);
                lemma_absence(n, fields[i]);
            }
        },
    }
}

proof fn lemma_failure_place(order: Seq<int>, fetched: Seq<Fetched>) -> (k: int)
    requires
        first_failure(order, fetched) is Some,
    ensures
        0 <= k < order.len(),
        fetched[order[k]] == Err::<SlotView, DecodeErrorView>(first_failure(order, fetched)->Some_0),
    decreases order.len(),
{
    if first_failure(order.drop_last(), fetched) is Some {
        let k = lemma_failure_place(order.drop_last(), fetched);
        assert(order.drop_last()[k] == order[k]);
        k
    } else {
        assert(order[order.len() - 1] == order.last());
        order.len() - 1
    }
}

/// Populating succeeds exactly when every field can be read and no required
/// field finds nothing.
pub proof fn lemma_populate_succeeds(n: NodeView, fields: Seq<FieldView>)
    ensures
        populate(n, fields) is Ok <==> forall|i: int|
            0 <= i < fields.len() ==> (#[trigger] fetch(n, fields[i])) is Ok && !(
            fields[i].required && fetch(n, fields[i])->Ok_0 is Absent),
        populate(n, fields) is Ok ==> populate(n, fields)->Ok_0.len() == fields.len(),
{
    let fetched = fetch_all(n, fields);
    let slots = slots_of(fetched);
    lemma_reads(n, fields);
    lemma_first_missing(fields, slots, 0);
    if populate(n, fields) is Ok {
        assert forall|i: int| 0 <= i < fields.len() implies (#[trigger] fetch(n, fields[i])) is Ok
            && !(fields[i].required && fetch(n, fields[i])->Ok_0 is Absent) by {
            assert(slots[i] == fetch(n, fields[i])->Ok_0);
        }
    }
    if forall|i: int|
        0 <= i < fields.len() ==> (#[trigger] fetch(n, fields[i])) is Ok && !(fields[i].required
            && fetch(n, fields[i])->Ok_0 is Absent) {
        if first_missing(fields, slots, 0) is Some {
            let k = first_missing(fields, slots, 0)->Some_0;
            assert(fetch(n, fields[k]) is Ok);
            assert(slots[k] == fetch(n, fields[k])->Ok_0);
        }
    }
}

/// A field gets the same value in any two variants that hold it: a flatten
/// field beside it, or any other sibling, changes nothing of what it reads
/// from the node.
pub proof fn lemma_siblings_do_not_interfere(
    n: NodeView,
    a: Seq<FieldView>,
    i: int,
    b: Seq<FieldView>,
    j: int,
)
    requires
        0 <= i < a.len(),
        0 <= j < b.len(),
        a[i] == b[j],
        populate(n, a) is Ok,
        populate(n, b) is Ok,
    ensures
        populate(n, a)->Ok_0[i] == populate(n, b)->Ok_0[j],
{
    lemma_fields_read_independently(n, a, i);
    lemma_fields_read_independently(n, b, j);
}

/// A required field for which the node holds nothing makes populating fail.
/// Where no read fails, the failure names the slot of the first such field
/// in declaration order.
pub proof fn lemma_required_field_missing(n: NodeView, fields: Seq<FieldView>, i: int)
    requires
        0 <= i < fields.len(),
        fields[i].required,
        absent_from(n, fields[i]),
    ensures
        populate(n, fields) is Err,
        (forall|j: int| 0 <= j < fields.len() ==> (#[trigger] fetch(n, fields[j])) is Ok) && (
        forall|j: int| 0 <= j < i ==> !(fields[j].required && absent_from(n, fields[j])))
            ==> populate(n, fields) == Err::<Seq<FieldValueView>, DecodeErrorView>(
            DecodeErrorView::MissingRequiredField(fields[i].slot),
        ),
{
    let fetched = fetch_all(n, fields);
    let slots = slots_of(fetched);
    lemma_reads(n, fields);
    lemma_first_missing(fields, slots, 0);
    lemma_absence(n, fields[i]);
    assert(slots[i] is Absent);
    if (forall|j: int| 0 <= j < fields.len() ==> (#[trigger] fetch(n, fields[j])) is Ok) && (
    forall|j: int| 0 <= j < i ==> !(fields[j].required && absent_from(n, fields[j]))) {
        let k = first_missing(fields, slots, 0)->Some_0;
        if k < i {
            lemma_absence(n, fields[k]);
            assert(fetch(n, fields[k]) is Ok);
            assert(false);
        }
    }
}

/// A field that is not required and for which the node holds nothing is no
/// failure: where populating succeeds its value is there, and empty.
pub proof fn lemma_optional_field_missing(n: NodeView, fields: Seq<FieldView>, i: int)
    requires
        0 <= i < fields.len(),
        !fields[i].required,
        absent_from(n, fields[i]),
    ensures
        populate(n, fields) is Ok ==> populate(n, fields)->Ok_0[i] == FieldValueView::Optional(
            None,
        ),
        fields.len() == 1 ==> populate(n, fields) == Ok::<Seq<FieldValueView>, DecodeErrorView>(
            seq![FieldValueView::Optional(None)],
        ),
{
    lemma_absence(n, fields[i]);
    if populate(n, fields) is Ok {
        lemma_fields_read_independently(n, fields, i);
    }
    if fields.len() == 1 {
        lemma_reads(n, fields);
        lemma_first_missing(fields, slots_of(fetch_all(n, fields)), 0);
        assert(populate(n, fields) is Ok);
        assert(populate(n, fields)->Ok_0 =~= seq![FieldValueView::Optional(None)]);
    }
}

/// The slot of a text field, of a flatten field and of a collection is
/// never empty, so none of them is ever missing.
pub proof fn lemma_always_present(n: NodeView, field: FieldView)
    requires
        field.source is Text || field.source is Flatten || field.source matches SourceView::Child(
            _,
            Cardinality::Many,
        ),
    ensures
        fetch(n, field) != Ok::<SlotView, DecodeErrorView>(SlotView::Absent),
{
}

/// Where a list of elements decodes, it gives one value for each element, in
/// the order of the elements.
pub proof fn lemma_decode_all_values(elements: Seq<ElementView>, target: FieldTypeView)
    requires
        decode_all(elements, target) is Ok,
    ensures
        decode_all(elements, target)->Ok_0.len() == elements.len(),
        forall|k: int|
            0 <= k < elements.len() ==> decode_target(#[trigger] elements[k], target) == Ok::<
                ValueView,
                DecodeErrorView,
            >(decode_all(elements, target)->Ok_0[k]),
    decreases elements.len(),
{
    if elements.len() > 0 {
        lemma_decode_all_values(elements.drop_last(), target);
        assert forall|k: int| 0 <= k < elements.len() implies decode_target(
            #[trigger] elements[k],
            target,
        ) == Ok::<ValueView, DecodeErrorView>(decode_all(elements, target)->Ok_0[k]) by {
            if k < elements.len() - 1 {
                assert(elements.drop_last()[k] == elements[k]);
            }
        }
    }
}

/// A list of elements decodes exactly when each of its elements does.
pub proof fn lemma_decode_all_succeeds(elements: Seq<ElementView>, target: FieldTypeView)
    ensures
        decode_all(elements, target) is Ok <==> forall|k: int|
            0 <= k < elements.len() ==> decode_target(#[trigger] elements[k], target) is Ok,
    decreases elements.len(),
{
    if elements.len() > 0 {
        lemma_decode_all_succeeds(elements.drop_last(), target);
        if decode_all(elements, target) is Ok {
            lemma_decode_all_values(elements, target);
        } else if decode_all(elements.drop_last(), target) is Err {
            let k = choose|k: int|
                0 <= k < elements.drop_last().len() && !(decode_target(
                    #[trigger] elements.drop_last()[k],
                    target,
                ) is Ok);
            assert(elements[k] == elements.drop_last()[k]);
        } else {
            assert(elements[elements.len() - 1] == elements.last());
        }
    }
}

/// A field that collects every match holds the values of all the child nodes
/// of its tag name, one for each and in document order. With no such child
/// it holds the empty list: that is no failure, and the field is never
/// missing.
pub proof fn lemma_many_collects_all(n: NodeView, fields: Seq<FieldView>, i: int)
    requires
        0 <= i < fields.len(),
        fields[i].source matches SourceView::Child(_, Cardinality::Many),
    ensures
        ({
            let matches = children_named(n.children, fields[i].source->Child_0);
            &&& matches.len() == 0 ==> fetch(n, fields[i]) == Ok::<SlotView, DecodeErrorView>(
                SlotView::Many(Seq::empty()),
            )
            &&& fetch(n, fields[i]) is Ok <==> forall|k: int|
                0 <= k < matches.len() ==> decode_target(#[trigger] matches[k], fields[i].target)
                    is Ok
            &&& populate(n, fields) is Ok ==> {
                &&& populate(n, fields)->Ok_0[i] matches FieldValueView::Many(values)
                &&& values.len() == matches.len()
                &&& forall|k: int|
                    0 <= k < matches.len() ==> decode_target(
                        #[trigger] matches[k],
                        fields[i].target,
                    ) == Ok::<ValueView, DecodeErrorView>(values[k])
            }
        }),
{
    let matches = children_named(n.children, fields[i].source->Child_0);
    lemma_decode_all_succeeds(matches, fields[i].target);
    if populate(n, fields) is Ok {
        lemma_fields_read_independently(n, fields, i);
        lemma_decode_all_values(matches, fields[i].target);
    }
}

/// The child nodes of a tag name are the children that are nodes of that
/// name, each once, in document order.
pub proof fn lemma_children_named(children: Seq<ElementView>, tag: Seq<char>)
    ensures
        forall|k: int|
            0 <= k < children_named(children, tag).len() ==> (#[trigger] children_named(
                children,
                tag,
            )[k]).is_node_named(tag),
        forall|i: int|
            0 <= i < children.len() && (#[trigger] children[i]).is_node_named(tag)
                ==> children_named(children, tag).contains(children[i]),
        children_named(children, tag).len() <= children.len(),
{
    broadcast use vstd::seq_lib::group_filter_ensures;

}

/// The value of the first attribute of a name is that of the attribute at
/// the least position with this name.
pub proof fn lemma_first_attribute(attributes: Seq<(Seq<char>, Seq<char>)>, name: Seq<char>)
    ensures
        match first_attribute(attributes, name) {
            Some(value) => exists|i: int|
                0 <= i < attributes.len() && (#[trigger] attributes[i]).0 == name && attributes[i].1
                    == value && forall|j: int| 0 <= j < i ==> (#[trigger] attributes[j]).0 != name,
            None => forall|i: int| 0 <= i < attributes.len() ==> (#[trigger] attributes[i]).0 != name,
        },
{
    lemma_attribute_from(attributes, name, 0);
}

proof fn lemma_attribute_from(attributes: Seq<(Seq<char>, Seq<char>)>, name: Seq<char>, start: nat)
    ensures
        match attribute_from(attributes, name, start) {
            Some(value) => exists|i: int|
                start <= i < attributes.len() && (#[trigger] attributes[i]).0 == name
                    && attributes[i].1 == value && forall|j: int|
                    start <= j < i ==> (#[trigger] attributes[j]).0 != name,
            None => forall|i: int|
                start <= i < attributes.len() ==> (#[trigger] attributes[i]).0 != name,
        },
    decreases attributes.len() - start,
{
    if start < attributes.len() {
        if attributes[start as int].0 == name {
            assert(attributes[start as int].1 == attribute_from(attributes, name, start)->Some_0);
        } else {
            lemma_attribute_from(attributes, name, start + 1);
            if attribute_from(attributes, name, start) is Some {
                let value = attribute_from(attributes, name, start)->Some_0;
                let i = choose|i: int|
                    start + 1 <= i < attributes.len() && (#[trigger] attributes[i]).0 == name
                        && attributes[i].1 == value && forall|j: int|
                        start + 1 <= j < i ==> (#[trigger] attributes[j]).0 != name;
                assert forall|j: int| start <= j < i implies (#[trigger] attributes[j]).0
                    != name by {}
            }
        }
    }
}

proof fn lemma_filtered_positions(n: nat, pred: spec_fn(int) -> bool, k: int)
    requires
        0 <= k <= n,
    ensures
        ({
            let list = positions(n).take(k).filter(pred);
            &&& forall|a: int| 0 <= a < list.len() ==> 0 <= #[trigger] list[a] < k
            &&& forall|a: int, b: int| 0 <= a < b < list.len() ==> list[a] < list[b]
        }),
    decreases k,
{
    reveal(Seq::filter);
    if k > 0 {
        lemma_filtered_positions(n, pred, k - 1);
        assert(positions(n).take(k) == positions(n).take(k - 1).push(k - 1));
        positions(n).take(k - 1).lemma_filter_push(k - 1, pred);
    }
}

/// A plan sorts the positions of the fields into four lists that share no
/// position and together hold every position: each position stands in the
/// list of its field's pass and in no other. Within each list the positions
/// rise, so the fields keep their declaration order.
pub proof fn lemma_plan_partitions(fields: Seq<FieldView>)
    ensures
        plan_of(fields).wf(),
        forall|i: int|
            0 <= i < fields.len() ==> #[trigger] plan_of(fields).pass(pass_of(fields[i])).contains(i),
        forall|p: int, i: int|
            0 <= p < 4 && #[trigger] plan_of(fields).pass(p).contains(i) ==> 0 <= i < fields.len()
                && p == pass_of(fields[i]),
        forall|p: int, a: int, b: int|
            0 <= p < 4 && 0 <= a < b < plan_of(fields).pass(p).len() ==> #[trigger] plan_of(
                fields,
            ).pass(p)[a] < #[trigger] plan_of(fields).pass(p)[b],
        plan_of(fields).flatten_fields.len() + plan_of(fields).text_fields.len() + plan_of(
            fields,
        ).attribute_fields.len() + plan_of(fields).child_fields.len() == fields.len(),
{
    let plan = plan_of(fields);
    assert forall|p: int| 0 <= p < 4 implies #[trigger] plan.pass(p) == pass_positions(fields, p) by {}
    assert forall|i: int| 0 <= i < fields.len() implies #[trigger] plan.pass(
        pass_of(fields[i]),
    ).contains(i) by {
        lemma_pass_membership(fields, pass_of(fields[i]), i);
    }
    assert forall|p: int, i: int| 0 <= p < 4 && #[trigger] plan.pass(p).contains(i) implies 0 <= i
        < fields.len() && p == pass_of(fields[i]) by {
        lemma_pass_membership(fields, p, i);
    }
    assert forall|p: int, a: int, b: int| 0 <= p < 4 && 0 <= a < b < plan.pass(p).len() implies
        #[trigger] plan.pass(p)[a] < #[trigger] plan.pass(p)[b] by {
        lemma_filtered_positions(fields.len(), pass_filter(fields, p), fields.len() as int);
        assert(positions(fields.len()).take(fields.len() as int) == positions(fields.len()));
    }
    lemma_pass_lengths(fields, fields.len() as int);
    assert(positions(fields.len()).take(fields.len() as int) == positions(fields.len()));
}

proof fn lemma_pass_lengths(fields: Seq<FieldView>, k: int)
    requires
        0 <= k <= fields.len(),
    ensures
        ({
            let all = positions(fields.len()).take(k);
            all.filter(pass_filter(fields, 0)).len() + all.filter(pass_filter(fields, 1)).len()
                + all.filter(pass_filter(fields, 2)).len() + all.filter(
                pass_filter(fields, 3),
            ).len() == k
        }),
    decreases k,
{
    reveal(Seq::filter);
    if k > 0 {
        lemma_pass_lengths(fields, k - 1);
        let before = positions(fields.len()).take(k - 1);
        assert(positions(fields.len()).take(k) == before.push(k - 1));
        before.lemma_filter_push(k - 1, pass_filter(fields, 0));
        before.lemma_filter_push(k - 1, pass_filter(fields, 1));
        before.lemma_filter_push(k - 1, pass_filter(fields, 2));
        before.lemma_filter_push(k - 1, pass_filter(fields, 3));
    }
}

/// A classified field stands in its place: its slot is its position, its
/// ordinal the position counted from 1, it is required exactly when its
/// container is bare, and as a child it is never both optional and required.
pub proof fn lemma_classified_in_place(
    position: int,
    name: Seq<char>,
    annotations: AnnotationsView,
    container: ContainerShape,
    target: FieldTypeView,
    text_before: bool,
    tuple_like: bool,
)
    requires
        target matches FieldTypeView::Enum(descriptor) ==> descriptor.valid(),
    ensures
        field_legal(
            classified(position, name, annotations, container, target),
            position,
            text_before,
            tuple_like,
        ) <==> !(annotations.flatten && target is Leaf) && !(!annotations.flatten
            && annotations.text && text_before),
{
}

/// The fields of a variant; none for a unit variant.
pub open spec fn fields_of(variant: VariantView) -> Seq<FieldView> {
    match variant.shape {
        ShapeView::Unit => Seq::empty(),
        ShapeView::Named(fields) => fields,
        ShapeView::Unnamed(fields) => fields,
    }
}

/// Whether the field at `position` keeps every rule: its slot is its
/// position; in a tuple-like variant its ordinal is its position counted
/// from 1; no text field stands before a text field; a flatten field's type
/// is no primitive leaf; an optional child is not required; and an enum that
/// is its type is legal.
pub open spec fn field_legal(
    field: FieldView,
    position: int,
    text_before: bool,
    tuple_like: bool,
) -> bool {
    &&& field.slot == position
    &&& tuple_like ==> field.ordinal == position + 1
    &&& !(field.source is Text && text_before)
    &&& !(field.source is Flatten && field.target is Leaf)
    &&& !(field.source matches SourceView::Child(_, Cardinality::Optional) && field.required)
    &&& field.target matches FieldTypeView::Enum(descriptor) ==> descriptor.valid()
}

proof fn lemma_field_fault(field: FieldView, position: int, text_before: bool, tuple_like: bool)
    ensures
        field_fault(field, position, text_before, tuple_like) is None <==> field_legal(
            field,
            position,
            text_before,
            tuple_like,
        ),
{
}

proof fn lemma_fields_fault(fields: Seq<FieldView>, tuple_like: bool, start: nat)
    ensures
        fields_fault_from(fields, tuple_like, start) is None <==> forall|i: int|
            start <= i < fields.len() ==> field_legal(
                #[trigger] fields[i],
                i,
                has_text_before(fields, i),
                tuple_like,
            ),
    decreases fields.len() - start,
{
    if start < fields.len() {
        lemma_fields_fault(fields, tuple_like, start + 1);
        let first = fields[start as int];
        lemma_field_fault(first, start as int, has_text_before(fields, start as int), tuple_like);
        if fields_fault_from(fields, tuple_like, start) is None {
            assert forall|i: int| start <= i < fields.len() implies field_legal(
                #[trigger] fields[i],
                i,
                has_text_before(fields, i),
                tuple_like,
            ) by {
                if i > start {
                    assert(start + 1 <= i);
                }
            }
        }
    }
}

proof fn lemma_type_fault(variants: Seq<VariantView>, start: nat)
    ensures
        type_fault_from(variants, start) is None <==> forall|v: int|
            start <= v < variants.len() ==> variant_fault(#[trigger] variants[v]) is None,
    decreases variants.len() - start,
{
    if start < variants.len() {
        lemma_type_fault(variants, start + 1);
        if type_fault_from(variants, start) is None {
            assert forall|v: int| start <= v < variants.len() implies variant_fault(
                #[trigger] variants[v],
            ) is None by {
                if v > start {
                    assert(start + 1 <= v);
                }
            }
        }
    }
}

/// A descriptor is legal exactly when every field of every variant keeps
/// every rule.
pub proof fn lemma_valid_descriptor(descriptor: TypeView)
    ensures
        descriptor.valid() <==> forall|v: int, i: int|
            0 <= v < descriptor.variants.len() && 0 <= i < fields_of(descriptor.variants[v]).len()
                ==> field_legal(
                #[trigger] fields_of(descriptor.variants[v])[i],
                i,
                has_text_before(fields_of(descriptor.variants[v]), i),
                descriptor.variants[v].shape is Unnamed,
            ),
{
    let variants = descriptor.variants;
    lemma_type_fault(variants, 0);
    assert forall|v: int| 0 <= v < variants.len() implies (variant_fault(#[trigger] variants[v])
        is None <==> forall|i: int|
        0 <= i < fields_of(variants[v]).len() ==> field_legal(
            #[trigger] fields_of(variants[v])[i],
            i,
            has_text_before(fields_of(variants[v]), i),
            variants[v].shape is Unnamed,
        )) by {
        lemma_fields_fault(fields_of(variants[v]), variants[v].shape is Unnamed, 0);
    }
    if descriptor.valid() {
        assert forall|v: int, i: int|
            0 <= v < variants.len() && 0 <= i < fields_of(variants[v]).len() implies field_legal(
            #[trigger] fields_of(variants[v])[i],
            i,
            has_text_before(fields_of(variants[v]), i),
            variants[v].shape is Unnamed,
        ) by {
            assert(variant_fault(variants[v]) is None);
        }
    }
}

/// A variant of a legal descriptor has at most one text field.
pub proof fn lemma_one_text_field(descriptor: TypeView, v: int, i: int, j: int)
    requires
        descriptor.valid(),
        0 <= v < descriptor.variants.len(),
        0 <= i < fields_of(descriptor.variants[v]).len(),
        0 <= j < fields_of(descriptor.variants[v]).len(),
        fields_of(descriptor.variants[v])[i].source is Text,
        fields_of(descriptor.variants[v])[j].source is Text,
    ensures
        i == j,
{
    lemma_valid_descriptor(descriptor);
    let fields = fields_of(descriptor.variants[v]);
    if i < j {
        assert(has_text_before(fields, j));
    } else if j < i {
        assert(has_text_before(fields, i));
    }
}

/// Whether an element takes part in decoding: a node or a text leaf.
pub open spec fn is_content(e: ElementView) -> bool {
    e is Node || e is Text
}

/// The node without the whitespace, the comments and the character data
/// that stand directly in it.
pub open spec fn without_skipped(n: NodeView) -> NodeView {
    NodeView {
        name: n.name,
        attributes: n.attributes,
        children: n.children.filter(|c: ElementView| is_content(c)),
    }
}

proof fn lemma_skipped_text(children: Seq<ElementView>)
    ensures
        direct_text(children.filter(|c: ElementView| is_content(c))) == direct_text(children),
    decreases children.len(),
{
    let keep = |c: ElementView| is_content(c);
    let piece = |c: ElementView| c.text_piece();
    reveal(Seq::filter);
    if children.len() > 0 {
        let init = children.drop_last();
        let last = children.last();
        lemma_skipped_text(init);
        assert(children == init.push(last));
        init.lemma_filter_push(last, keep);
        assert(init.push(last).map_values(piece) == init.map_values(piece).push(piece(last)));
        init.map_values(piece).lemma_flatten_push(piece(last));
        if keep(last) {
            let kept = init.filter(keep);
            assert(kept.push(last).map_values(piece) == kept.map_values(piece).push(piece(last)));
            kept.map_values(piece).lemma_flatten_push(piece(last));
        } else {
            assert(direct_text(init) + piece(last) == direct_text(init));
        }
    }
}

proof fn lemma_skipped_named(children: Seq<ElementView>, tag: Seq<char>)
    ensures
        children_named(children.filter(|c: ElementView| is_content(c)), tag) == children_named(
            children,
            tag,
        ),
    decreases children.len(),
{
    let keep = |c: ElementView| is_content(c);
    let named = |c: ElementView| c.is_node_named(tag);
    reveal(Seq::filter);
    if children.len() > 0 {
        let init = children.drop_last();
        let last = children.last();
        lemma_skipped_named(init, tag);
        assert(children == init.push(last));
        init.lemma_filter_push(last, keep);
        init.lemma_filter_push(last, named);
        if keep(last) {
            init.filter(keep).lemma_filter_push(last, named);
        }
    }
}

proof fn lemma_skipped_fetch(n: NodeView, field: FieldView)
    ensures
        fetch(without_skipped(n), field) == fetch(n, field),
    decreases field, 0nat, 0nat,
{
    lemma_skipped_text(n.children);
    match field.source {
        SourceView::Flatten => {
            lemma_skipped_target(n, field.target);
        },
        SourceView::Child(tag, _) => {
            lemma_skipped_named(n.children, tag);
        },
        _ => {},
    }
}

proof fn lemma_skipped_target(n: NodeView, target: FieldTypeView)
    ensures
        decode_target(ElementView::Node(without_skipped(n)), target) == decode_target(
            ElementView::Node(n),
            target,
        ),
    decreases target, 0nat, 0nat,
{
    lemma_skipped_text(n.children);
    match target {
        FieldTypeView::Leaf => {},
        FieldTypeView::Enum(descriptor) => {
            lemma_skipped_content(n, descriptor);
        },
    }
}

proof fn lemma_skipped_populate(n: NodeView, fields: Seq<FieldView>)
    ensures
        populate(without_skipped(n), fields) == populate(n, fields),
    decreases fields, 0nat, 0nat,
{
    assert forall|i: int| 0 <= i < fields.len() implies fetch(
        without_skipped(n),
        #[trigger] fields[i],
    ) == fetch(n, fields[i]) by {
        lemma_skipped_fetch(n, fields[i]);
    }
    assert(fetch_all(without_skipped(n), fields) =~= fetch_all(n, fields));
}

proof fn lemma_skipped_variant(n: NodeView, index: int, variant: VariantView)
    ensures
        build_variant(without_skipped(n), index, variant) == build_variant(n, index, variant),
    decreases variant, 0nat, 0nat,
{
    match variant.shape {
        ShapeView::Unit => {},
        ShapeView::Named(fields) => {
            lemma_skipped_populate(n, fields);
        },
        ShapeView::Unnamed(fields) => {
            lemma_skipped_populate(n, fields);
        },
    }
}

proof fn lemma_skipped_node_from(n: NodeView, variants: Seq<VariantView>, start: nat)
    ensures
        decode_node_from(without_skipped(n), variants, start) == decode_node_from(
            n,
            variants,
            start,
        ),
    decreases variants, 0nat, variants.len() - start,
{
    if start < variants.len() {
        if variants[start as int].effective_name() == n.name {
            lemma_skipped_variant(n, start as int, variants[start as int]);
        } else {
            lemma_skipped_node_from(n, variants, start + 1);
        }
    }
}

/// Whitespace, comments and character data that stand directly in a node
/// are skipped: the node decodes as it does without them.
pub proof fn lemma_skipped_content(n: NodeView, descriptor: TypeView)
    ensures
        decode_type(ElementView::Node(without_skipped(n)), descriptor) == decode_type(
            ElementView::Node(n),
            descriptor,
        ),
    decreases descriptor, 1nat, 0nat,
{
    lemma_skipped_node_from(n, descriptor.variants, 0);
}

} // verus!
