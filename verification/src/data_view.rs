//! The decoded-field table and the gestures it reports back.

use vstd::prelude::*;

verus! {

/// A gesture on one row of the field table, to be forwarded verbatim to
/// the selection model or the schema store.
#[derive(Clone, Copy, Debug, PartialEq, Eq, Structural)]
pub enum FieldAction {
    Select(usize),
    Edit(usize),
    Delete(usize),
}

/// The data view widget showing interpreted fields. It holds no state of
/// its own; the rendering layer drives it from the schema and the buffer.
#[derive(Debug)]
pub struct DataView {}

impl DataView {
    /// A new data view.
    pub fn new() -> (r: Self)
        ensures
            r == (DataView {}),
    {
        DataView {}
    }
}

impl Default for DataView {
    /// A new data view.
    fn default() -> (r: Self)
        ensures
            r == (DataView {}),
    {
        DataView {}
    }
}

} // verus!
