//! The typed fields that a span or an event carries.

use vstd::prelude::*;

verus! {

/// The value of one field, by its type.
///
/// `Float` holds the IEEE 754 bit pattern of a 64-bit floating-point value.
/// `Debug` holds the text of a value of any other type, already formatted.
#[derive(Debug, PartialEq, Eq)]
pub enum FieldValue {
    Bool(bool),
    I64(i64),
    U64(u64),
    Float(u64),
    Str(String),
    Debug(String),
}

/// A named value attached to a span or an event.
#[derive(Debug, PartialEq, Eq)]
pub struct Field {
    pub name: String,
    pub value: FieldValue,
}

pub enum FieldValueView {
    Bool(bool),
    I64(i64),
    U64(u64),
    Float(u64),
    Str(Seq<char>),
    Debug(Seq<char>),
}

pub struct FieldView {
    pub name: Seq<char>,
    pub value: FieldValueView,
}

impl View for FieldValue {
    type V = FieldValueView;

    open spec fn view(&self) -> FieldValueView {
        match *self {
            FieldValue::Bool(value) => FieldValueView::Bool(value),
            FieldValue::I64(value) => FieldValueView::I64(value),
            FieldValue::U64(value) => FieldValueView::U64(value),
            FieldValue::Float(bits) => FieldValueView::Float(bits),
            FieldValue::Str(text) => FieldValueView::Str(text@),
            FieldValue::Debug(text) => FieldValueView::Debug(text@),
        }
    }
}

impl View for Field {
    type V = FieldView;

    open spec fn view(&self) -> FieldView {
        FieldView { name: self.name@, value: self.value@ }
    }
}

/// The fields of a span or an event, each by its view.
pub open spec fn field_views(fields: Seq<Field>) -> Seq<FieldView> {
    fields.map_values(|f: Field| f@)
}

} // verus!
