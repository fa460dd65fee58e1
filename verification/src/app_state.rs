//! The application state and the decisions behind its user gestures:
//! creating and editing fields from form input, deleting a field together
//! with the selection repair, and forwarding clicks to the selection model.

use vstd::prelude::*;
use vstd::string::StrSliceExecFns;
use crate::binary_data::BinaryData;
use crate::data_view::DataView;
use crate::field::{Field, FieldModel};
use crate::highlight::HexView;
use crate::schema::{Schema, SchemaError};
use crate::selection::{click_model, repaired_anchor, repaired_set, ClickKind, Selection};
use crate::text::{
    chars_of_str, hex_digits, offset_text_model, parse_offset_text, string_from_chars,
};
use crate::types::{DataType, Endianness};

verus! {

/// Which view keyboard shortcuts act on.
#[derive(Clone, Copy, Debug, PartialEq, Eq, Structural)]
pub enum ViewFocus {
    HexView,
    DataView,
}

/// The whole application state.
#[derive(Debug)]
pub struct SchematicApp {
    /// Loaded binary data.
    pub binary_data: BinaryData,
    /// The fields interpreting the binary data.
    pub schema: Schema,
    /// Hex view widget.
    pub hex_view: HexView,
    /// Data view widget.
    pub data_view: DataView,
    /// Whether the add-field form is open.
    pub add_field_window_open: bool,
    pub new_field_name: String,
    pub new_field_offset: String,
    pub new_field_type_idx: usize,
    pub new_field_comment: String,
    /// Whether the edit-field form is open.
    pub edit_field_window_open: bool,
    pub edit_field_idx: Option<usize>,
    pub edit_field_name: String,
    pub edit_field_offset: String,
    pub edit_field_type_idx: usize,
    pub edit_field_comment: String,
    /// The selected fields and the shift-range anchor.
    pub selection: Selection,
    /// Current view focus.
    pub view_focus: ViewFocus,
    /// Path of the current schema file, for saving back.
    pub schema_file_path: Option<String>,
}

/// Everything but the add-field form is the same in `a` and `b`.
pub open spec fn same_but_add_form(a: SchematicApp, b: SchematicApp) -> bool {
    &&& a.binary_data == b.binary_data
    &&& a.schema == b.schema
    &&& a.hex_view == b.hex_view
    &&& a.data_view == b.data_view
    &&& a.add_field_window_open == b.add_field_window_open
    &&& a.edit_field_window_open == b.edit_field_window_open
    &&& a.edit_field_idx == b.edit_field_idx
    &&& a.edit_field_name == b.edit_field_name
    &&& a.edit_field_offset == b.edit_field_offset
    &&& a.edit_field_type_idx == b.edit_field_type_idx
    &&& a.edit_field_comment == b.edit_field_comment
    &&& a.selection == b.selection
    &&& a.view_focus == b.view_focus
    &&& a.schema_file_path == b.schema_file_path
}

/// Everything but the edit-field form is the same in `a` and `b`.
pub open spec fn same_but_edit_form(a: SchematicApp, b: SchematicApp) -> bool {
    &&& a.binary_data == b.binary_data
    &&& a.schema == b.schema
    &&& a.hex_view == b.hex_view
    &&& a.data_view == b.data_view
    &&& a.add_field_window_open == b.add_field_window_open
    &&& a.new_field_name == b.new_field_name
    &&& a.new_field_offset == b.new_field_offset
    &&& a.new_field_type_idx == b.new_field_type_idx
    &&& a.new_field_comment == b.new_field_comment
    &&& a.selection == b.selection
    &&& a.view_focus == b.view_focus
    &&& a.schema_file_path == b.schema_file_path
}

/// Everything but the schema store and the selection is the same in `a`
/// and `b`.
pub open spec fn same_but_store(a: SchematicApp, b: SchematicApp) -> bool {
    &&& a.binary_data == b.binary_data
    &&& a.hex_view == b.hex_view
    &&& a.data_view == b.data_view
    &&& a.add_field_window_open == b.add_field_window_open
    &&& a.new_field_name == b.new_field_name
    &&& a.new_field_offset == b.new_field_offset
    &&& a.new_field_type_idx == b.new_field_type_idx
    &&& a.new_field_comment == b.new_field_comment
    &&& a.edit_field_window_open == b.edit_field_window_open
    &&& a.edit_field_idx == b.edit_field_idx
    &&& a.edit_field_name == b.edit_field_name
    &&& a.edit_field_offset == b.edit_field_offset
    &&& a.edit_field_type_idx == b.edit_field_type_idx
    &&& a.edit_field_comment == b.edit_field_comment
    &&& a.view_focus == b.view_focus
    &&& a.schema_file_path == b.schema_file_path
}

/// The field a filled add or edit form describes.
pub open spec fn form_field_model(
    name: Seq<char>,
    offset_text: Seq<char>,
    type_idx: int,
    comment: Seq<char>,
) -> FieldModel {
    FieldModel {
        name: name,
        offset: match offset_text_model(offset_text) {
            Some(v) => v,
            None => 0,
        },
        data_type: DataType::canonical_seq()[type_idx],
        comment: comment,
        endianness: Endianness::Little,
    }
}

impl SchematicApp {
    /// The type pickers of both forms point into the type catalog, and the
    /// selection holds no index twice.
    pub open spec fn wf(self) -> bool {
        &&& self.new_field_type_idx < DataType::canonical_seq().len()
        &&& self.edit_field_type_idx < DataType::canonical_seq().len()
        &&& self.selection.wf()
    }

    /// Builds a field from the add-field form. Fails, committing nothing,
    /// exactly when the name is empty or the offset text is neither a
    /// `0x`-prefixed hexadecimal nor a plain decimal unsigned integer that
    /// fits the machine.
    pub fn create_field_from_input(&self) -> (r: Option<Field>)
        requires
            self.wf(),
        ensures
            r is Some <==> self.new_field_name@.len() != 0 && offset_text_model(
                self.new_field_offset@,
            ) is Some,
            r is Some ==> r->0@ == form_field_model(
                self.new_field_name@,
                self.new_field_offset@,
                self.new_field_type_idx as int,
                self.new_field_comment@,
            ),
    {
        if self.new_field_name.as_str().unicode_len() == 0 {
            return None;
        }
        let offset_chars = chars_of_str(self.new_field_offset.as_str());
        let offset = match parse_offset_text(&offset_chars) {
            Some(v) => v,
            None => {
                return None;
            },
        };
        let all = DataType::all();
        let data_type = all[self.new_field_type_idx];
        let mut field = Field::new(self.new_field_name.clone(), offset, data_type);
        field.comment = self.new_field_comment.clone();
        Some(field)
    }

    /// Resets the add-field form to its defaults.
    pub fn reset_add_field_form(&mut self)
        ensures
            same_but_add_form(*old(self), *final(self)),
            final(self).new_field_name@ == Seq::<char>::empty(),
            final(self).new_field_offset@ == "0"@,
            final(self).new_field_type_idx == 0,
            final(self).new_field_comment@ == Seq::<char>::empty(),
    {
        self.new_field_name = String::new();
        self.new_field_offset = String::from_str("0");
        self.new_field_type_idx = 0;
        self.new_field_comment = String::new();
    }

    /// Populates the edit form from the field at `idx` and opens it; does
    /// nothing when `idx` is not a current field index. The offset is shown
    /// as `0x`-prefixed uppercase hexadecimal.
    pub fn start_edit_field(&mut self, idx: usize)
        ensures
            idx < old(self).schema.fields@.len() ==> {
                let f = old(self).schema.fields@[idx as int]@;
                &&& same_but_edit_form(*old(self), *final(self))
                &&& final(self).edit_field_idx == Some(idx)
                &&& final(self).edit_field_name@ == f.name
                &&& final(self).edit_field_offset@ == seq!['0', 'x'] + hex_digits(
                    f.offset as nat,
                )
                &&& DataType::canonical_seq()[final(self).edit_field_type_idx as int]
                    == f.data_type
                &&& final(self).edit_field_type_idx < DataType::canonical_seq().len()
                &&& final(self).edit_field_comment@ == f.comment
                &&& final(self).edit_field_window_open
            },
            idx >= old(self).schema.fields@.len() ==> *final(self) == *old(self),
    {
        let field = match self.schema.get(idx) {
            Some(f) => f,
            None => {
                return ;
            },
        };
        let name = field.name.clone();
        let comment = field.comment.clone();
        let type_idx = field.data_type.canonical_index();
        let mut offset_chars: Vec<char> = Vec::new();
        offset_chars.push('0');
        offset_chars.push('x');
        let mut digits = crate::text::hex_chars_of(field.offset as u64);
        let ghost goffset = field.offset as nat;
        offset_chars.append(&mut digits);
        proof {
            assert(offset_chars@ =~= seq!['0', 'x'] + hex_digits(goffset));
        }
        self.edit_field_idx = Some(idx);
        self.edit_field_name = name;
        self.edit_field_offset = string_from_chars(&offset_chars);
        self.edit_field_type_idx = type_idx;
        self.edit_field_comment = comment;
        self.edit_field_window_open = true;
    }

    /// Applies the edit form to the field it was opened for: the field is
    /// replaced in place, keeping its index. Returns `false`, committing
    /// nothing, when the name is empty, no edit is in progress, or the
    /// offset text does not parse.
    pub fn update_field_from_input(&mut self) -> (r: bool)
        requires
            old(self).wf(),
        ensures
            final(self).wf(),
            same_but_store(*old(self), *final(self)),
            final(self).selection == old(self).selection,
            r <==> old(self).edit_field_name@.len() != 0 && old(self).edit_field_idx is Some
                && offset_text_model(old(self).edit_field_offset@) is Some,
            !r ==> final(self).schema == old(self).schema,
            r ==> {
                let i = old(self).edit_field_idx->0 as int;
                let f = form_field_model(
                    old(self).edit_field_name@,
                    old(self).edit_field_offset@,
                    old(self).edit_field_type_idx as int,
                    old(self).edit_field_comment@,
                );
                &&& (i < old(self).schema.fields@.len() ==> final(self).schema@ == old(
                    self,
                ).schema@.update(i, f))
                &&& (i >= old(self).schema.fields@.len() ==> final(self).schema@ == old(
                    self,
                ).schema@)
            },
    {
        if self.edit_field_name.as_str().unicode_len() == 0 {
            return false;
        }
        let idx = match self.edit_field_idx {
            Some(i) => i,
            None => {
                return false;
            },
        };
        let offset_chars = chars_of_str(self.edit_field_offset.as_str());
        let offset = match parse_offset_text(&offset_chars) {
            Some(v) => v,
            None => {
                return false;
            },
        };
        let all = DataType::all();
        let data_type = all[self.edit_field_type_idx];
        let mut field = Field::new(self.edit_field_name.clone(), offset, data_type);
        field.comment = self.edit_field_comment.clone();
        let ghost fm = field@;
        match self.schema.replace(idx, field) {
            Ok(()) => {
                proof {
                    assert(final(self).schema@ =~= old(self).schema@.update(idx as int, fm));
                }
            },
            Err(SchemaError::IndexOutOfRange) => {},
        }
        true
    }

    /// Removes the field at `idx` and, atomically with it, repairs the
    /// selection: the removed index leaves the selection, larger selected
    /// indices shift down by one, and the anchor follows the same rule.
    /// Fails, changing nothing, exactly when `idx` is not a current field
    /// index.
    pub fn delete_field(&mut self, idx: usize) -> (r: Result<Field, SchemaError>)
        requires
            old(self).wf(),
        ensures
            final(self).wf(),
            same_but_store(*old(self), *final(self)),
            r is Ok <==> idx < old(self).schema.fields@.len(),
            r is Ok ==> {
                &&& final(self).schema.fields@ == old(self).schema.fields@.remove(idx as int)
                &&& r->Ok_0 == old(self).schema.fields@[idx as int]
                &&& final(self).selection.sel() == repaired_set(old(self).selection.sel(), idx)
                &&& final(self).selection.anchor == repaired_anchor(
                    old(self).selection.anchor,
                    idx,
                )
            },
            r is Err ==> final(self).schema.fields@ == old(self).schema.fields@
                && final(self).selection == old(self).selection
                && r->Err_0 == SchemaError::IndexOutOfRange,
    {
        match self.schema.remove(idx) {
            Ok(field) => {
                self.selection.repair_after_remove(idx);
                Ok(field)
            },
            Err(e) => Err(e),
        }
    }

    /// Forwards one click on the field at `idx` to the selection model.
    pub fn click_field(&mut self, idx: usize, kind: ClickKind)
        requires
            old(self).wf(),
        ensures
            final(self).wf(),
            same_but_store(*old(self), *final(self)),
            final(self).schema == old(self).schema,
            (final(self).selection.sel(), final(self).selection.anchor) == click_model(
                old(self).selection.sel(),
                old(self).selection.anchor,
                idx,
                kind,
            ),
    {
        self.selection.click(idx, kind);
    }

    /// Removes every field and, with them, the whole selection.
    pub fn clear_fields(&mut self)
        requires
            old(self).wf(),
        ensures
            final(self).wf(),
            same_but_store(*old(self), *final(self)),
            final(self).schema.fields@ == Seq::<Field>::empty(),
            final(self).selection.sel() == Set::<usize>::empty(),
            final(self).selection.anchor is None,
    {
        self.schema.clear();
        self.selection.clear();
    }
}

impl Default for SchematicApp {
    /// The initial application state: nothing loaded, no fields, empty
    /// forms, no selection, focus on the hex view.
    fn default() -> (r: Self)
        ensures
            r.wf(),
            r.binary_data.data@ == Seq::<u8>::empty(),
            r.binary_data.file_path is None,
            !r.binary_data.modified,
            r.schema.fields@ == Seq::<Field>::empty(),
            r.hex_view.bytes_per_row == 16,
            !r.add_field_window_open,
            r.new_field_name@ == Seq::<char>::empty(),
            r.new_field_offset@ == "0"@,
            r.new_field_type_idx == 0,
            r.new_field_comment@ == Seq::<char>::empty(),
            !r.edit_field_window_open,
            r.edit_field_idx is None,
            r.edit_field_name@ == Seq::<char>::empty(),
            r.edit_field_offset@ == "0"@,
            r.edit_field_type_idx == 0,
            r.edit_field_comment@ == Seq::<char>::empty(),
            r.selection.sel() == Set::<usize>::empty(),
            r.selection.anchor is None,
            r.view_focus == ViewFocus::HexView,
            r.schema_file_path is None,
    {
        SchematicApp {
            binary_data: BinaryData::new(),
            schema: Schema::new(),
            hex_view: HexView::new(),
            data_view: DataView::new(),
            add_field_window_open: false,
            new_field_name: String::new(),
            new_field_offset: String::from_str("0"),
            new_field_type_idx: 0,
            new_field_comment: String::new(),
            edit_field_window_open: false,
            edit_field_idx: None,
            edit_field_name: String::new(),
            edit_field_offset: String::from_str("0"),
            edit_field_type_idx: 0,
            edit_field_comment: String::new(),
            selection: Selection::new(),
            view_focus: ViewFocus::HexView,
            schema_file_path: None,
        }
    }
}

impl SchematicApp {
    /// The initial application state.
    pub fn new() -> (r: Self)
        ensures
            r.wf(),
            r.schema.fields@ == Seq::<Field>::empty(),
            r.selection.sel() == Set::<usize>::empty(),
            r.selection.anchor is None,
    {
        Self::default()
    }
}

} // verus!
