//! The schema store: an ordered collection of fields. Insertion order is
//! significant, because a field's index is its identity throughout the
//! selection model and the rendering layer. Overlapping and duplicate
//! fields are legal.

use vstd::prelude::*;
use crate::field::{Field, FieldModel};

verus! {

/// Failure of an index-addressed schema operation.
#[derive(Clone, Copy, Debug, PartialEq, Eq, Structural)]
pub enum SchemaError {
    IndexOutOfRange,
}

/// The mathematical content of an ordered field sequence.
pub open spec fn models(fields: Seq<Field>) -> Seq<FieldModel> {
    fields.map_values(|f: Field| f@)
}

/// A complete schema definition: the ordered sequence of all fields.
#[derive(Debug, Clone)]
pub struct Schema {
    pub fields: Vec<Field>,
}

impl View for Schema {
    type V = Seq<FieldModel>;

    open spec fn view(&self) -> Seq<FieldModel> {
        models(self.fields@)
    }
}

impl Default for Schema {
    /// An empty schema.
    fn default() -> (r: Self)
        ensures
            r.fields@ == Seq::<Field>::empty(),
    {
        Schema { fields: Vec::new() }
    }
}

impl Schema {
    /// An empty schema.
    pub fn new() -> (r: Self)
        ensures
            r.fields@ == Seq::<Field>::empty(),
    {
        Schema { fields: Vec::new() }
    }

    /// The number of fields.
    pub fn len(&self) -> (r: usize)
        ensures
            r == self.fields@.len(),
    {
        self.fields.len()
    }

    /// The field at `index`, if there is one.
    pub fn get(&self, index: usize) -> (r: Option<&Field>)
        ensures
            r is Some <==> index < self.fields@.len(),
            r is Some ==> *r->0 == self.fields@[index as int],
    {
        if index < self.fields.len() {
            Some(&self.fields[index])
        } else {
            None
        }
    }

    /// All fields, in insertion order.
    pub fn all(&self) -> (r: &Vec<Field>)
        ensures
            r@ == self.fields@,
    {
        &self.fields
    }

    /// Appends a field at the end, preserving the indices of all existing
    /// fields.
    pub fn append(&mut self, field: Field)
        ensures
            final(self).fields@ == old(self).fields@.push(field),
    {
        self.fields.push(field);
    }

    /// Replaces the field at `index` in place; fails, changing nothing,
    /// exactly when `index` is not a current field index.
    pub fn replace(&mut self, index: usize, field: Field) -> (r: Result<(), SchemaError>)
        ensures
            r is Ok <==> index < old(self).fields@.len(),
            r is Ok ==> final(self).fields@ == old(self).fields@.update(index as int, field),
            r is Err ==> final(self).fields@ == old(self).fields@ && r->Err_0
                == SchemaError::IndexOutOfRange,
    {
        if index < self.fields.len() {
            self.fields.set(index, field);
            Ok(())
        } else {
            Err(SchemaError::IndexOutOfRange)
        }
    }

    /// Removes and returns the field at `index`, shifting every later field
    /// down by one; fails, changing nothing, exactly when `index` is not a
    /// current field index.
    pub fn remove(&mut self, index: usize) -> (r: Result<Field, SchemaError>)
        ensures
            r is Ok <==> index < old(self).fields@.len(),
            r is Ok ==> final(self).fields@ == old(self).fields@.remove(index as int) && r->Ok_0
                == old(self).fields@[index as int],
            r is Err ==> final(self).fields@ == old(self).fields@ && r->Err_0
                == SchemaError::IndexOutOfRange,
    {
        if index < self.fields.len() {
            Ok(self.fields.remove(index))
        } else {
            Err(SchemaError::IndexOutOfRange)
        }
    }

    /// Removes every field.
    pub fn clear(&mut self)
        ensures
            final(self).fields@ == Seq::<Field>::empty(),
    {
        self.fields.clear();
    }
}

} // verus!
