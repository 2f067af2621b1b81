//! The flat field record a codec serializes.
//!
//! A typed event converts to a record — an ordered list of named scalar
//! fields — and the codec turns records into payload bytes and back. Keys are
//! validated identifiers; values are text, unsigned integers or flags.

use vstd::prelude::*;

use crate::event::{valid_identifier, Identifier};

verus! {

/// Mathematical model of a field value.
pub enum ValueView {
    Text(Seq<char>),
    Uint(u64),
    Flag(bool),
}

/// Mathematical model of one named field.
pub struct FieldView {
    pub key: Seq<char>,
    pub value: ValueView,
}

/// A scalar field value: text, an unsigned integer, or a flag.
#[derive(Debug)]
pub enum FieldValue {
    Text(String),
    Uint(u64),
    Flag(bool),
}

impl View for FieldValue {
    type V = ValueView;

    open spec fn view(&self) -> ValueView {
        match self {
            FieldValue::Text(s) => ValueView::Text(s@),
            FieldValue::Uint(n) => ValueView::Uint(*n),
            FieldValue::Flag(b) => ValueView::Flag(*b),
        }
    }
}

impl Clone for FieldValue {
    fn clone(&self) -> (r: Self)
        ensures
            r@ == self@,
    {
        match self {
            FieldValue::Text(s) => FieldValue::Text(s.clone()),
            FieldValue::Uint(n) => FieldValue::Uint(*n),
            FieldValue::Flag(b) => FieldValue::Flag(*b),
        }
    }
}

/// One named field of a record.
#[derive(Debug)]
pub struct Field {
    key: Identifier,
    value: FieldValue,
}

impl View for Field {
    type V = FieldView;

    closed spec fn view(&self) -> FieldView {
        FieldView { key: self.key@, value: self.value@ }
    }
}

impl Field {
    /// Pair a validated key with a value.
    pub fn new(key: Identifier, value: FieldValue) -> (r: Field)
        ensures
            r@ == (FieldView { key: key@, value: value@ }),
    {
        Field { key, value }
    }

    /// The field's name; always a valid identifier.
    pub fn key(&self) -> (r: &Identifier)
        ensures
            r@ == self@.key,
            valid_identifier(self@.key),
    {
        proof {
            use_type_invariant(&self.key);
        }
        &self.key
    }

    /// The field's value.
    pub fn value(&self) -> (r: &FieldValue)
        ensures
            r@ == self@.value,
    {
        &self.value
    }

}

impl Clone for Field {
    fn clone(&self) -> (r: Self)
        ensures
            r@ == self@,
    {
        Field { key: self.key.clone(), value: self.value.clone() }
    }
}

/// An ordered list of named fields; what a typed event looks like to a codec.
#[derive(Debug)]
pub struct Record {
    fields: Vec<Field>,
}

impl View for Record {
    type V = Seq<FieldView>;

    closed spec fn view(&self) -> Seq<FieldView> {
        self.fields@.map_values(|f: Field| f@)
    }
}

impl Record {
    /// The empty record.
    pub fn new() -> (r: Record)
        ensures
            r@ == Seq::<FieldView>::empty(),
    {
        let r = Record { fields: Vec::new() };
        proof {
            assert(r@ =~= Seq::<FieldView>::empty());
        }
        r
    }

    /// Append a field.
    pub fn push(&mut self, field: Field)
        ensures
            final(self)@ == old(self)@.push(field@),
    {
        self.fields.push(field);
        proof {
            assert(self@ =~= old(self)@.push(field@));
        }
    }

    /// The number of fields.
    pub fn len(&self) -> (r: usize)
        ensures
            r == self@.len(),
    {
        self.fields.len()
    }

    /// The field at `i`.
    pub fn field(&self, i: usize) -> (r: &Field)
        requires
            i < self@.len(),
        ensures
            r@ == self@[i as int],
    {
        &self.fields[i]
    }

    /// The fields, in order.
    pub fn fields(&self) -> (r: &Vec<Field>)
        ensures
            r@.map_values(|f: Field| f@) == self@,
    {
        &self.fields
    }
}

impl Clone for Record {
    fn clone(&self) -> (r: Self)
        ensures
            r@ == self@,
    {
        let mut out: Vec<Field> = Vec::new();
        let mut i: usize = 0;
        while i < self.fields.len()
            invariant
                i <= self.fields@.len(),
                out@.len() == i,
                forall|j: int| 0 <= j < i ==> #[trigger] out@[j]@ == self.fields@[j]@,
            decreases self.fields@.len() - i,
        {
            out.push(self.fields[i].clone());
            i += 1;
        }
        let r = Record { fields: out };
        proof {
            assert(r@ =~= self@);
        }
        r
    }
}

} // verus!
