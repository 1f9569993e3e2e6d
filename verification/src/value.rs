//! What decoding gives: values, and the reasons for which it fails.

use vstd::prelude::*;

verus! {

/// The kinds of leaf that never yield a typed value.
#[derive(Clone, Copy, Debug, PartialEq, Eq, Structural)]
pub enum LeafKind {
    Whitespace,
    Comment,
    CData,
}

/// Why a decode failed.
#[derive(Debug, PartialEq, Eq)]
pub enum DecodeError {
    /// A text leaf equals no unit variant's effective name.
    NoVariantMatchedText,
    /// A node's tag name equals no variant's effective name; holds the tag name.
    NoVariantMatchedNode(String),
    /// A typed value was asked of whitespace, a comment or character data.
    UnexpectedLeafKind(LeafKind),
    /// A required field found nothing in the node; holds the field's slot.
    MissingRequiredField(usize),
    /// The decode of a field's own type failed; holds that failure.
    DelegateFailure(Box<DecodeError>),
}

/// The mathematical content of a `DecodeError`.
pub ghost enum DecodeErrorView {
    NoVariantMatchedText,
    NoVariantMatchedNode(Seq<char>),
    UnexpectedLeafKind(LeafKind),
    MissingRequiredField(int),
    DelegateFailure(Box<DecodeErrorView>),
}

/// The final value of one field, in the shape of its declared container.
#[derive(Debug, PartialEq, Eq)]
pub enum FieldValue {
    One(Value),
    Optional(Option<Value>),
    Many(Vec<Value>),
}

/// A field value of a struct-like variant, under the field's name.
#[derive(Debug, PartialEq, Eq)]
pub struct NamedValue {
    pub name: String,
    pub value: FieldValue,
}

/// A decoded value: the text of a primitive leaf, or one variant of an enum,
/// told by its position in the declaration and its identifier.
#[derive(Debug, PartialEq, Eq)]
pub enum Value {
    Leaf(String),
    Unit { variant: usize, name: String },
    Named { variant: usize, name: String, fields: Vec<NamedValue> },
    Unnamed { variant: usize, name: String, items: Vec<FieldValue> },
}

/// The mathematical content of a `FieldValue`.
pub ghost enum FieldValueView {
    One(ValueView),
    Optional(Option<ValueView>),
    Many(Seq<ValueView>),
}

/// The mathematical content of a `Value`.
pub ghost enum ValueView {
    Leaf(Seq<char>),
    Unit { variant: int, name: Seq<char> },
    Named { variant: int, name: Seq<char>, fields: Seq<(Seq<char>, FieldValueView)> },
    Unnamed { variant: int, name: Seq<char>, items: Seq<FieldValueView> },
}

impl View for DecodeError {
    type V = DecodeErrorView;

    open spec fn view(&self) -> DecodeErrorView
        decreases self,
    {
        match self {
            DecodeError::NoVariantMatchedText => DecodeErrorView::NoVariantMatchedText,
            DecodeError::NoVariantMatchedNode(name) => DecodeErrorView::NoVariantMatchedNode(name@),
            DecodeError::UnexpectedLeafKind(kind) => DecodeErrorView::UnexpectedLeafKind(*kind),
            DecodeError::MissingRequiredField(slot) => DecodeErrorView::MissingRequiredField(
                *slot as int,
            ),
            DecodeError::DelegateFailure(inner) => DecodeErrorView::DelegateFailure(
                Box::new((**inner)@),
            ),
        }
    }
}

impl View for FieldValue {
    type V = FieldValueView;

    open spec fn view(&self) -> FieldValueView
        decreases self,
    {
        match self {
            FieldValue::One(v) => FieldValueView::One(v@),
            FieldValue::Optional(None) => FieldValueView::Optional(None),
            FieldValue::Optional(Some(v)) => FieldValueView::Optional(Some(v@)),
            FieldValue::Many(vs) => FieldValueView::Many(
                Seq::new(
                    vs@.len(),
                    |i: int|
                        if 0 <= i < vs@.len() {
                            vs@[i]@
                        } else {
                            ValueView::Leaf(Seq::empty())
                        },
                ),
            ),
        }
    }
}

impl View for NamedValue {
    type V = (Seq<char>, FieldValueView);

    open spec fn view(&self) -> (Seq<char>, FieldValueView)
        decreases self,
    {
        (self.name@, self.value@)
    }
}

/// The contents of the fields of a struct-like value, in order.
pub open spec fn named_list_view(list: &Vec<NamedValue>) -> Seq<(Seq<char>, FieldValueView)>
    decreases list,
{
    Seq::new(
        list@.len(),
        |i: int|
            if 0 <= i < list@.len() {
                list@[i]@
            } else {
                arbitrary()
            },
    )
}

/// The contents of the fields of a tuple-like value, in order.
pub open spec fn item_list_view(list: &Vec<FieldValue>) -> Seq<FieldValueView>
    decreases list,
{
    Seq::new(
        list@.len(),
        |i: int|
            if 0 <= i < list@.len() {
                list@[i]@
            } else {
                arbitrary()
            },
    )
}

impl View for Value {
    type V = ValueView;

    open spec fn view(&self) -> ValueView
        decreases self,
    {
        match self {
            Value::Leaf(s) => ValueView::Leaf(s@),
            Value::Unit { variant, name } => ValueView::Unit {
                variant: *variant as int,
                name: name@,
            },
            Value::Named { variant, name, fields: list } => ValueView::Named {
                variant: *variant as int,
                name: name@,
                fields: named_list_view(list),
            },
            Value::Unnamed { variant, name, items } => ValueView::Unnamed {
                variant: *variant as int,
                name: name@,
                items: item_list_view(items),
            },
        }
    }
}

/// The contents of a list of values, in order.
pub open spec fn values_view(values: Seq<Value>) -> Seq<ValueView> {
    values.map_values(|v: Value| v@)
}

/// The contents of a list of field values, in order.
pub open spec fn field_values_view(values: Seq<FieldValue>) -> Seq<FieldValueView> {
    values.map_values(|v: FieldValue| v@)
}

/// The contents of a list of named field values, in order.
pub open spec fn named_values_view(values: Seq<NamedValue>) -> Seq<(Seq<char>, FieldValueView)> {
    values.map_values(|v: NamedValue| v@)
}

/// The content of a decode's outcome.
pub open spec fn outcome_view(r: Result<Value, DecodeError>) -> Result<ValueView, DecodeErrorView> {
    match r {
        Ok(v) => Ok(v@),
        Err(e) => Err(e@),
    }
}

/// The content of the outcome of decoding a list of elements.
pub open spec fn list_outcome_view(r: Result<Vec<Value>, DecodeError>) -> Result<
    Seq<ValueView>,
    DecodeErrorView,
> {
    match r {
        Ok(values) => Ok(values_view(values@)),
        Err(e) => Err(e@),
    }
}

/// The content of the outcome of populating a variant's fields.
pub open spec fn field_outcome_view(r: Result<Vec<FieldValue>, DecodeError>) -> Result<
    Seq<FieldValueView>,
    DecodeErrorView,
> {
    match r {
        Ok(values) => Ok(field_values_view(values@)),
        Err(e) => Err(e@),
    }
}

/// The content of a collection value is the list of its values' contents.
pub proof fn lemma_many_view(values: Vec<Value>)
    ensures
        FieldValue::Many(values)@ == FieldValueView::Many(values_view(values@)),
{
    assert(FieldValue::Many(values)@->Many_0 =~= values_view(values@));
}

/// The content of a struct-like value lists its fields' contents.
pub proof fn lemma_named_view(variant: usize, name: String, fields: Vec<NamedValue>)
    ensures
        (Value::Named { variant, name, fields })@ == (ValueView::Named {
            variant: variant as int,
            name: name@,
            fields: named_values_view(fields@),
        }),
{
    assert((Value::Named { variant, name, fields })@->fields == named_list_view(&fields));
    assert(named_list_view(&fields) =~= named_values_view(fields@));
}

/// The content of a tuple-like value lists its fields' contents.
pub proof fn lemma_unnamed_view(variant: usize, name: String, items: Vec<FieldValue>)
    ensures
        (Value::Unnamed { variant, name, items })@ == (ValueView::Unnamed {
            variant: variant as int,
            name: name@,
            items: field_values_view(items@),
        }),
{
    assert((Value::Unnamed { variant, name, items })@->items == item_list_view(&items));
    assert(item_list_view(&items) =~= field_values_view(items@));
}

} // verus!
