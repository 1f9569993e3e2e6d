//! Populates the fields of a variant from a node: one storage slot for each
//! field, four passes over the node, then the rebinding of the slots.

use vstd::prelude::*;
use crate::descriptor::{
    fields_view, Cardinality, FieldDescriptor, FieldType, FieldView, SourceKind, SourceView,
};
use crate::element::{elements_view, Element, ElementView, NodeElement};
use crate::matcher::{decode, decode_node};
use crate::model;
use crate::model::{
    first_failure, first_missing, lemma_decode_all_failure, lemma_first_failure_concat,
    lemma_first_failure_prefix, lemma_pass_membership, name_fields, pass_positions, rebind,
    rebind_all, slots_of, Fetched, SlotView,
};
use crate::plan::{as_ints, FieldPlan};
use crate::value::{
    field_outcome_view, field_values_view, lemma_many_view, list_outcome_view, named_values_view,
    outcome_view, values_view, DecodeError, DecodeErrorView, FieldValue, LeafKind, NamedValue,
    Value, ValueView,
};

verus! {

/// The storage slot of one field while a node is read.
pub(crate) enum Slot {
    /// Nothing found yet.
    Absent,
    /// The field's one value.
    One(Value),
    /// The values collected so far.
    Many(Vec<Value>),
}

impl View for Slot {
    type V = SlotView;

    closed spec fn view(&self) -> SlotView {
        match self {
            Slot::Absent => SlotView::Absent,
            Slot::One(v) => SlotView::One(v@),
            Slot::Many(values) => SlotView::Many(values_view(values@)),
        }
    }
}

/// The contents of a list of slots, in order.
pub(crate) open spec fn slots_view(slots: Seq<Slot>) -> Seq<SlotView> {
    slots.map_values(|s: Slot| s@)
}

/// What a field's slot holds before the node is read: an empty collection
/// for a field that collects every match, nothing for any other.
pub(crate) open spec fn initial_slot(field: FieldView) -> SlotView {
    match field.source {
        SourceView::Child(_, Cardinality::Many) => SlotView::Many(Seq::empty()),
        _ => SlotView::Absent,
    }
}

/// One slot for each field, each in its initial state.
pub(crate) fn declare(fields: &Vec<FieldDescriptor>) -> (slots: Vec<Slot>)
    ensures
        slots@.len() == fields@.len(),
        forall|i: int| 0 <= i < slots@.len() ==> (#[trigger] slots@[i])@ == initial_slot(fields@[i]@),
{
    let mut slots: Vec<Slot> = Vec::new();
    let n: usize = fields.len();
    let mut i: usize = 0;
    while i < n
        invariant
            i <= n,
            n == fields@.len(),
            slots@.len() == i,
            forall|k: int| 0 <= k < i ==> (#[trigger] slots@[k])@ == initial_slot(fields@[k]@),
        decreases n - i,
    {
        match &fields[i].source {
            SourceKind::Child(_, Cardinality::Many) => {
                let empty: Vec<Value> = Vec::new();
                assert(values_view(empty@) == Seq::<ValueView>::empty());
                slots.push(Slot::Many(empty));
            },
            _ => {
                slots.push(Slot::Absent);
            },
        }
        i += 1;
    }
    slots
}

/// The same items in the opposite order.
pub(crate) fn reversed<T>(items: Vec<T>) -> (r: Vec<T>)
    ensures
        r@ == items@.reverse(),
{
    let mut items = items;
    let ghost all = items@;
    let mut r: Vec<T> = Vec::new();
    while items.len() > 0
        invariant
            items@.len() + r@.len() == all.len(),
            items@ == all.take(items@.len() as int),
            forall|k: int| 0 <= k < r@.len() ==> r@[k] == all[all.len() - 1 - k],
        decreases items@.len(),
    {
        let item = items.pop().unwrap();
        r.push(item);
    }
    assert(r@ =~= all.reverse());
    r
}

/// The final value of one field from what its slot holds.
pub(crate) fn rebind_slot(field: &FieldDescriptor, slot: Slot) -> (value: FieldValue)
    ensures
        value@ == rebind(field@, slot@),
{
    match slot {
        Slot::Many(values) => {
            proof {
                lemma_many_view(values);
            }
            FieldValue::Many(values)
        },
        Slot::One(v) => if field.required {
            FieldValue::One(v)
        } else {
            FieldValue::Optional(Some(v))
        },
        Slot::Absent => FieldValue::Optional(None),
    }
}

/// Turns the slots into the final field values: the first required field
/// whose slot holds nothing fails with its slot index.
pub(crate) fn rebind_slots(fields: &Vec<FieldDescriptor>, slots: Vec<Slot>) -> (r: Result<
    Vec<FieldValue>,
    DecodeError,
>)
    requires
        slots@.len() == fields@.len(),
    ensures
        field_outcome_view(r) == rebind_all(fields_view(fields), slots_view(slots@)),
{
    let ghost views = fields_view(fields);
    let ghost held = slots_view(slots@);
    let n: usize = fields.len();
    let mut i: usize = 0;
    while i < n
        invariant
            i <= n,
            n == fields@.len(),
            n == slots@.len(),
            views == fields_view(fields),
            held == slots_view(slots@),
            first_missing(views, held, 0) == first_missing(views, held, i as nat),
        decreases n - i,
    {
        if fields[i].required {
            match &slots[i] {
                Slot::Absent => {
                    return Err(DecodeError::MissingRequiredField(fields[i].slot));
                },
                _ => {},
            }
        }
        i += 1;
    }
    let mut rest = reversed(slots);
    let mut values: Vec<FieldValue> = Vec::new();
    let mut k: usize = 0;
    while k < n
        invariant
            k <= n,
            n == fields@.len(),
            n == held.len(),
            views == fields_view(fields),
            rest@.len() == n - k,
            forall|j: int| 0 <= j < n - k ==> (#[trigger] rest@[j])@ == held[n - 1 - j],
            values@.len() == k,
            forall|j: int| 0 <= j < k ==> (#[trigger] values@[j])@ == rebind(views[j], held[j]),
        decreases n - k,
    {
        let slot = rest.pop().unwrap();
        let value = rebind_slot(&fields[k], slot);
        values.push(value);
        k += 1;
    }
    assert(field_values_view(values@) =~= Seq::new(
        views.len(),
        |i: int| rebind(views[i], held[i]),
    ));
    Ok(values)
}

/// Puts each value of a struct-like variant under its field's name.
pub(crate) fn collect_named(fields: &Vec<FieldDescriptor>, values: Vec<FieldValue>) -> (named: Vec<
    NamedValue,
>)
    requires
        values@.len() == fields@.len(),
    ensures
        named_values_view(named@) == name_fields(fields_view(fields), field_values_view(values@)),
{
    let ghost views = fields_view(fields);
    let ghost held = field_values_view(values@);
    let n: usize = fields.len();
    let mut rest = reversed(values);
    let mut named: Vec<NamedValue> = Vec::new();
    let mut k: usize = 0;
    while k < n
        invariant
            k <= n,
            n == fields@.len(),
            n == held.len(),
            views == fields_view(fields),
            rest@.len() == n - k,
            forall|j: int| 0 <= j < n - k ==> (#[trigger] rest@[j])@ == held[n - 1 - j],
            named@.len() == k,
            forall|j: int| 0 <= j < k ==> (#[trigger] named@[j])@ == (views[j].name, held[j]),
        decreases n - k,
    {
        let value = rest.pop().unwrap();
        named.push(NamedValue { name: fields[k].name.clone(), value });
        k += 1;
    }
    assert(named_values_view(named@) =~= name_fields(views, held));
    named
}

/// The content of the outcome of reading one field.
pub(crate) open spec fn slot_outcome_view(r: Result<Slot, DecodeError>) -> Fetched {
    match r {
        Ok(slot) => Ok(slot@),
        Err(e) => Err(e@),
    }
}

/// Decodes a primitive leaf: its value is the string of a text leaf, the
/// direct text of a node.
pub fn decode_leaf(element: &Element) -> (r: Result<Value, DecodeError>)
    ensures
        outcome_view(r) == model::leaf_value(element@),
{
    match element {
        Element::Text(s) => Ok(Value::Leaf(s.clone())),
        Element::Node(node) => Ok(Value::Leaf(node.direct_text())),
        Element::Whitespace(_) => Err(DecodeError::UnexpectedLeafKind(LeafKind::Whitespace)),
        Element::Comment(_) => Err(DecodeError::UnexpectedLeafKind(LeafKind::Comment)),
        Element::CData(_) => Err(DecodeError::UnexpectedLeafKind(LeafKind::CData)),
    }
}

/// Decodes an element as a value of a field's type.
pub fn decode_target(element: &Element, target: &FieldType) -> (r: Result<Value, DecodeError>)
    ensures
        outcome_view(r) == model::decode_target(element@, target@),
    decreases target, 0nat,
{
    match target {
        FieldType::Leaf => decode_leaf(element),
        FieldType::Enum(descriptor) => decode(element, descriptor),
    }
}

/// Decodes a whole node as a value of a field's type.
pub fn decode_node_target(node: &NodeElement, target: &FieldType) -> (r: Result<
    Value,
    DecodeError,
>)
    ensures
        outcome_view(r) == model::decode_target(ElementView::Node(node@), target@),
    decreases target, 0nat,
{
    match target {
        FieldType::Leaf => Ok(Value::Leaf(node.direct_text())),
        FieldType::Enum(descriptor) => decode_node(node, descriptor),
    }
}

/// Decodes every element of a list in order and stops at the first failure.
pub fn decode_each(elements: &Vec<&Element>, target: &FieldType) -> (r: Result<
    Vec<Value>,
    DecodeError,
>)
    ensures
        list_outcome_view(r) == model::decode_all(elements_view(elements@), target@),
    decreases target, 1nat,
{
    let ghost views = elements_view(elements@);
    let mut values: Vec<Value> = Vec::new();
    let n: usize = elements.len();
    let mut i: usize = 0;
    assert(values_view(values@) =~= Seq::empty());
    assert(views.take(0) =~= Seq::empty());
    while i < n
        invariant
            i <= n,
            n == elements@.len(),
            views == elements_view(elements@),
            model::decode_all(views.take(i as int), target@) == Ok::<
                Seq<ValueView>,
                DecodeErrorView,
            >(values_view(values@)),
        decreases n - i,
    {
        proof {
            assert(views.take(i + 1).drop_last() == views.take(i as int));
            assert(views.take(i + 1).last() == elements@[i as int]@);
        }
        match decode_target(elements[i], target) {
            Ok(v) => {
                assert(values_view(values@.push(v)) =~= values_view(values@).push(v@));
                values.push(v);
            },
            Err(e) => {
                proof {
                    lemma_decode_all_failure(views, target@, i + 1);
                }
                return Err(e);
            },
        }
        i += 1;
    }
    assert(views.take(n as int) == views);
    Ok(values)
}

/// Reads one field from the node, by the field's source kind.
pub(crate) fn fetch(node: &NodeElement, field: &FieldDescriptor) -> (r: Result<Slot, DecodeError>)
    ensures
        slot_outcome_view(r) == model::fetch(node@, field@),
    decreases field, 0nat,
{
    match &field.source {
        SourceKind::Flatten => match decode_node_target(node, &field.target) {
            Ok(v) => Ok(Slot::One(v)),
            Err(e) => Err(e),
        },
        SourceKind::Text => {
            let element = Element::Text(node.direct_text());
            match decode_target(&element, &field.target) {
                Ok(v) => Ok(Slot::One(v)),
                Err(e) => Err(e),
            }
        },
        SourceKind::Attribute(name) => match node.attribute(name) {
            Some(value) => {
                let element = Element::Text(value.clone());
                match decode_target(&element, &field.target) {
                    Ok(v) => Ok(Slot::One(v)),
                    Err(e) => Err(e),
                }
            },
            None => Ok(Slot::Absent),
        },
        SourceKind::Child(tag, cardinality) => {
            let found = node.children_named(tag);
            match cardinality {
                Cardinality::Many => match decode_each(&found, &field.target) {
                    Ok(values) => Ok(Slot::Many(values)),
                    Err(e) => Err(e),
                },
                _ => if found.len() == 0 {
                    Ok(Slot::Absent)
                } else {
                    match decode_target(found[0], &field.target) {
                        Ok(v) => Ok(Slot::One(v)),
                        Err(e) => Err(e),
                    }
                },
            }
        },
    }
}

/// Runs one pass: reads the fields at the listed positions in order, each
/// into its own slot, and stops at the first read that fails.
pub(crate) fn run_pass(
    node: &NodeElement,
    fields: &Vec<FieldDescriptor>,
    pass: &Vec<usize>,
    slots: &mut Vec<Slot>,
) -> (r: Result<(), DecodeError>)
    requires
        old(slots)@.len() == fields@.len(),
        forall|k: int| 0 <= k < pass@.len() ==> pass@[k] < fields@.len(),
    ensures
        final(slots)@.len() == fields@.len(),
        match r {
            Ok(_) => {
                &&& first_failure(as_ints(pass@), model::fetch_all(node@, fields_view(fields)))
                    is None
                &&& forall|j: int|
                    0 <= j < fields@.len() ==> if as_ints(pass@).contains(j) {
                        model::fetch_all(node@, fields_view(fields))[j] == Ok::<
                            SlotView,
                            DecodeErrorView,
                        >((#[trigger] final(slots)@[j])@)
                    } else {
                        final(slots)@[j] == old(slots)@[j]
                    }
            },
            Err(e) => first_failure(as_ints(pass@), model::fetch_all(node@, fields_view(fields)))
                == Some(e@),
        },
    decreases fields, 1nat,
{
    let ghost order = as_ints(pass@);
    let ghost fetched = model::fetch_all(node@, fields_view(fields));
    let m: usize = pass.len();
    let mut i: usize = 0;
    assert(order.take(0) =~= Seq::empty());
    while i < m
        invariant
            i <= m,
            m == pass@.len(),
            order == as_ints(pass@),
            fetched == model::fetch_all(node@, fields_view(fields)),
            slots@.len() == fields@.len(),
            forall|k: int| 0 <= k < pass@.len() ==> pass@[k] < fields@.len(),
            first_failure(order.take(i as int), fetched) is None,
            forall|j: int|
                0 <= j < fields@.len() ==> if order.take(i as int).contains(j) {
                    fetched[j] == Ok::<SlotView, DecodeErrorView>((#[trigger] slots@[j])@)
                } else {
                    slots@[j] == old(slots)@[j]
                },
        decreases m - i,
    {
        let position: usize = pass[i];
        proof {
            assert(order[i as int] == position as int);
            assert(order.take(i + 1).drop_last() == order.take(i as int));
            assert(order.take(i + 1).last() == position as int);
            assert(fetched[position as int] == model::fetch(node@, fields@[position as int]@));
            let prev = order.take(i as int);
            let next = order.take(i + 1);
            assert forall|j: int| next.contains(j) <==> (prev.contains(j) || j == position as int) by {
                if next.contains(j) {
                    let k = choose|k: int| 0 <= k < next.len() && next[k] == j;
                    if k < i {
                        assert(prev[k] == j);
                    }
                }
                if prev.contains(j) {
                    let k = choose|k: int| 0 <= k < prev.len() && prev[k] == j;
                    assert(next[k] == j);
                }
                if j == position as int {
                    assert(next[i as int] == j);
                }
            }
        }
        match fetch(node, &fields[position]) {
            Ok(slot) => {
                slots.set(position, slot);
            },
            Err(e) => {
                proof {
                    lemma_first_failure_prefix(order, fetched, i + 1);
                }
                return Err(e);
            },
        }
        i += 1;
    }
    assert(order.take(m as int) == order);
    Ok(())
}

/// Populates the fields of one variant from a node: a slot for each field,
/// then the flatten, text, attribute and child passes in this order, then
/// the rebinding of the slots into final values.
pub fn populate(node: &NodeElement, plan: &FieldPlan) -> (r: Result<Vec<FieldValue>, DecodeError>)
    ensures
        field_outcome_view(r) == model::populate(node@, plan@.fields),
    decreases plan.described(), 2nat,
{
    let fields = plan.fields();
    let flatten_fields = plan.flatten_fields();
    let text_fields = plan.text_fields();
    let attribute_fields = plan.attribute_fields();
    let child_fields = plan.child_fields();
    let ghost views = fields_view(fields);
    let ghost fetched = model::fetch_all(node@, views);
    let ghost flats = pass_positions(views, 0);
    let ghost texts = pass_positions(views, 1);
    let ghost attrs = pass_positions(views, 2);
    let ghost kids = pass_positions(views, 3);
    proof {
        assert forall|p: int, j: int| #[trigger] pass_positions(views, p).contains(j)
            <==> model::in_pass(views, p, j) by {
            lemma_pass_membership(views, p, j);
        }
        lemma_first_failure_concat(flats, texts, fetched);
        lemma_first_failure_concat(flats + texts, attrs, fetched);
        lemma_first_failure_concat(flats + texts + attrs, kids, fetched);
        lemma_in_range(flatten_fields@, flats, views);
        lemma_in_range(text_fields@, texts, views);
        lemma_in_range(attribute_fields@, attrs, views);
        lemma_in_range(child_fields@, kids, views);
    }
    let mut slots = declare(fields);
    match run_pass(node, fields, flatten_fields, &mut slots) {
        Err(e) => {
            return Err(DecodeError::DelegateFailure(Box::new(e)));
        },
        Ok(_) => {},
    }
    match run_pass(node, fields, text_fields, &mut slots) {
        Err(e) => {
            return Err(DecodeError::DelegateFailure(Box::new(e)));
        },
        Ok(_) => {},
    }
    match run_pass(node, fields, attribute_fields, &mut slots) {
        Err(e) => {
            return Err(DecodeError::DelegateFailure(Box::new(e)));
        },
        Ok(_) => {},
    }
    match run_pass(node, fields, child_fields, &mut slots) {
        Err(e) => {
            return Err(DecodeError::DelegateFailure(Box::new(e)));
        },
        Ok(_) => {},
    }
    proof {
        assert forall|j: int| 0 <= j < views.len() implies fetched[j] == Ok::<
            SlotView,
            DecodeErrorView,
        >(#[trigger] slots@[j]@) by {
            assert(model::in_pass(views, 0, j) || model::in_pass(views, 1, j) || model::in_pass(
                views,
                2,
                j,
            ) || model::in_pass(views, 3, j));
        }
        assert(slots_view(slots@) =~= slots_of(fetched));
    }
    rebind_slots(fields, slots)
}

/// The positions of a pass lie within the list of fields.
proof fn lemma_in_range(list: Seq<usize>, pass: Seq<int>, fields: Seq<FieldView>)
    requires
        as_ints(list) == pass,
        exists|p: int| pass == pass_positions(fields, p),
    ensures
        forall|k: int| 0 <= k < list.len() ==> list[k] < fields.len(),
{
    let p = choose|p: int| pass == pass_positions(fields, p);
    assert forall|k: int| 0 <= k < list.len() implies list[k] < fields.len() by {
        assert(pass[k] == list[k] as int);
        assert(pass.contains(list[k] as int));
        lemma_pass_membership(fields, p, list[k] as int);
    }
}

} // verus!
