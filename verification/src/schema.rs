//! What a form is built from: the shape of a model type (its fields, enums,
//! options and lists), and values of such a type, held as plain data.

use vstd::prelude::*;

verus! {

/// The built-in scalar types a leaf field can hold.
#[derive(Clone, Copy, Debug, PartialEq, Eq)]
pub enum ScalarKind {
    Str,
    Bool,
    I8,
    I16,
    I32,
    I64,
    ISize,
    U8,
    U16,
    U32,
    U64,
    USize,
    F32,
    F64,
}

/// The shape of a model type, as far as building a form needs it.
#[derive(Debug, PartialEq)]
pub enum Schema {
    /// A scalar with a built-in widget.
    Scalar(ScalarKind),
    /// Any other type that is neither a struct, an enum, an `Option` nor a
    /// list (a scalar without a built-in widget, a map, ...).
    Unsupported,
    /// `Option<X>`.
    Opt(Box<Schema>),
    /// `Vec<X>` and other lists.
    List(Box<Schema>),
    /// A struct, with its fields in declaration order.
    Struct(Vec<FieldSchema>),
    /// An enum, with its variants in declaration order.
    Enum(Vec<VariantSchema>),
}

/// One named field of a struct or of an enum variant.
#[derive(Debug, PartialEq)]
pub struct FieldSchema {
    pub name: String,
    pub schema: Schema,
}

/// One variant of an enum.
#[derive(Debug, PartialEq)]
pub struct VariantSchema {
    pub name: String,
    pub fields: Vec<FieldSchema>,
}

/// A value of a model type, as plain data.
#[derive(Debug, PartialEq)]
pub enum Value {
    /// A scalar, as the text its type displays it as.
    Scalar(String),
    /// `None`, or more generally the default of the slot it is written to.
    Absent,
    /// `Some(x)`.
    Present(Box<Value>),
    /// A list's elements.
    List(Vec<Value>),
    /// A struct's fields, by name.
    Record(Vec<Entry>),
    /// An enum value: the variant's name and its fields, by name.
    Variant(String, Vec<Entry>),
}

/// One named field of a [`Value::Record`] or [`Value::Variant`].
#[derive(Debug, PartialEq)]
pub struct Entry {
    pub name: String,
    pub value: Value,
}

/// The mathematical view of a [`Value`].
pub enum ValueV {
    Scalar(Seq<char>),
    Absent,
    Present(Box<ValueV>),
    List(Seq<ValueV>),
    Record(Seq<(Seq<char>, ValueV)>),
    Variant(Seq<char>, Seq<(Seq<char>, ValueV)>),
}

pub open spec fn entries_view(es: Seq<Entry>) -> Seq<(Seq<char>, ValueV)>
    decreases es,
{
    Seq::new(
        es.len(),
        |i: int|
            if 0 <= i < es.len() {
                (es[i].name@, value_view(es[i].value))
            } else {
                (Seq::empty(), ValueV::Absent)
            },
    )
}

pub open spec fn value_view(v: Value) -> ValueV
    decreases v,
{
    match v {
        Value::Scalar(s) => ValueV::Scalar(s@),
        Value::Absent => ValueV::Absent,
        Value::Present(b) => ValueV::Present(Box::new(value_view(*b))),
        Value::List(items) => ValueV::List(
            Seq::new(
                items@.len(),
                |i: int|
                    if 0 <= i < items@.len() {
                        value_view(items@[i])
                    } else {
                        ValueV::Absent
                    },
            ),
        ),
        Value::Record(es) => ValueV::Record(entries_view(es@)),
        Value::Variant(n, es) => ValueV::Variant(n@, entries_view(es@)),
    }
}

impl View for Value {
    type V = ValueV;

    open spec fn view(&self) -> ValueV {
        value_view(*self)
    }
}

} // verus!
