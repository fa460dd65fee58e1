use schematic::app_state::{SchematicApp, ViewFocus};
use schematic::binary_data::BinaryData;
use schematic::field::Field;
use schematic::schema::{Schema, SchemaError};
use schematic::selection::ClickKind;
use schematic::types::{DataType, DecodedValue, Endianness};

fn field(name: &str, offset: usize, data_type: DataType) -> Field {
    Field::new(String::from(name), offset, data_type)
}

#[test]
fn schema_append_get_len() {
    let mut schema = Schema::new();
    assert_eq!(schema.len(), 0);
    schema.append(field("A", 0, DataType::U8));
    schema.append(field("B", 1, DataType::U16));
    assert_eq!(schema.len(), 2);
    assert_eq!(schema.get(0).unwrap().name, "A");
    assert_eq!(schema.get(1).unwrap().name, "B");
    assert!(schema.get(2).is_none());
    assert_eq!(schema.all().len(), 2);
}

#[test]
fn schema_replace_in_place() {
    let mut schema = Schema::new();
    schema.append(field("A", 0, DataType::U8));
    schema.append(field("B", 1, DataType::U16));
    assert_eq!(schema.replace(1, field("B2", 8, DataType::I64)), Ok(()));
    assert_eq!(schema.get(1).unwrap().name, "B2");
    assert_eq!(schema.get(1).unwrap().offset, 8);
    assert_eq!(schema.get(0).unwrap().name, "A");
    assert_eq!(
        schema.replace(2, field("C", 0, DataType::U8)),
        Err(SchemaError::IndexOutOfRange)
    );
    assert_eq!(schema.len(), 2);
}

#[test]
fn schema_remove_closes_the_gap() {
    let mut schema = Schema::new();
    schema.append(field("A", 0, DataType::U8));
    schema.append(field("B", 1, DataType::U8));
    schema.append(field("C", 2, DataType::U8));
    let removed = schema.remove(1).unwrap();
    assert_eq!(removed.name, "B");
    assert_eq!(schema.len(), 2);
    assert_eq!(schema.get(0).unwrap().name, "A");
    assert_eq!(schema.get(1).unwrap().name, "C");
    assert!(matches!(schema.remove(2), Err(SchemaError::IndexOutOfRange)));
    schema.clear();
    assert_eq!(schema.len(), 0);
}

#[test]
fn binary_data_lifecycle() {
    let mut data = BinaryData::new();
    assert!(!data.is_loaded());
    assert_eq!(data.size(), 0);
    assert!(data.file_path().is_none());
    data.load(vec![1, 2, 3], String::from("/tmp/blob.bin"));
    assert!(data.is_loaded());
    assert_eq!(data.size(), 3);
    assert_eq!(data.bytes(), &[1, 2, 3]);
    assert_eq!(data.file_path().unwrap(), "/tmp/blob.bin");
    assert!(!data.is_modified());
    data.clear();
    assert!(!data.is_loaded());
    assert!(data.file_path().is_none());
}

#[test]
fn field_reads_its_own_range() {
    let data = [0u8, 0x01, 0x02, 0x03];
    let f = field("pair", 1, DataType::U16);
    assert_eq!(f.size(), 2);
    assert_eq!(f.read_value(&data), Some(DecodedValue::Unsigned(0x0201)));
    let mut big = field("pair", 1, DataType::U16);
    big.endianness = Endianness::Big;
    assert_eq!(big.read_value(&data), Some(DecodedValue::Unsigned(0x0102)));
    let oob = field("tail", 3, DataType::U16);
    assert_eq!(oob.read_value(&data), None);
}

#[test]
fn create_field_parses_decimal_and_hex_offsets() {
    let mut app = SchematicApp::new();
    app.new_field_name = String::from("magic");
    app.new_field_offset = String::from("26");
    app.new_field_type_idx = 2; // u32 in catalog order
    app.new_field_comment = String::from("note");
    let f = app.create_field_from_input().unwrap();
    assert_eq!(f.name, "magic");
    assert_eq!(f.offset, 26);
    assert_eq!(f.data_type, DataType::U32);
    assert_eq!(f.comment, "note");
    assert_eq!(f.endianness, Endianness::Little);
    app.new_field_offset = String::from("0x1A");
    let f = app.create_field_from_input().unwrap();
    assert_eq!(f.offset, 26);
    app.new_field_offset = String::from("0x1a");
    let f = app.create_field_from_input().unwrap();
    assert_eq!(f.offset, 26);
}

#[test]
fn create_field_rejects_bad_input() {
    let mut app = SchematicApp::new();
    app.new_field_name = String::from("");
    app.new_field_offset = String::from("12");
    assert!(app.create_field_from_input().is_none());
    app.new_field_name = String::from("x");
    app.new_field_offset = String::from("12ab");
    assert!(app.create_field_from_input().is_none());
    app.new_field_offset = String::from("0x");
    assert!(app.create_field_from_input().is_none());
    app.new_field_offset = String::from("-4");
    assert!(app.create_field_from_input().is_none());
    app.new_field_offset = String::from("");
    assert!(app.create_field_from_input().is_none());
    app.new_field_offset = String::from("99999999999999999999999999");
    assert!(app.create_field_from_input().is_none());
    app.new_field_offset = String::from("0xFFFFFFFFFFFFFFFFF");
    assert!(app.create_field_from_input().is_none());
}

#[test]
fn reset_add_field_form_restores_defaults() {
    let mut app = SchematicApp::new();
    app.new_field_name = String::from("x");
    app.new_field_offset = String::from("0x10");
    app.new_field_type_idx = 5;
    app.new_field_comment = String::from("y");
    app.reset_add_field_form();
    assert_eq!(app.new_field_name, "");
    assert_eq!(app.new_field_offset, "0");
    assert_eq!(app.new_field_type_idx, 0);
    assert_eq!(app.new_field_comment, "");
}

#[test]
fn start_edit_field_fills_the_form_with_hex_offset() {
    let mut app = SchematicApp::new();
    let mut f = field("head", 26, DataType::I16);
    f.comment = String::from("why");
    app.schema.append(f);
    app.start_edit_field(0);
    assert!(app.edit_field_window_open);
    assert_eq!(app.edit_field_idx, Some(0));
    assert_eq!(app.edit_field_name, "head");
    assert_eq!(app.edit_field_offset, "0x1A");
    assert_eq!(app.edit_field_type_idx, 5); // i16 in catalog order
    assert_eq!(app.edit_field_comment, "why");
    // An index past the schema changes nothing.
    let mut other = SchematicApp::new();
    other.start_edit_field(3);
    assert!(!other.edit_field_window_open);
    assert_eq!(other.edit_field_idx, None);
}

#[test]
fn update_field_from_input_replaces_in_place() {
    let mut app = SchematicApp::new();
    app.schema.append(field("a", 0, DataType::U8));
    app.schema.append(field("b", 1, DataType::U8));
    app.start_edit_field(1);
    app.edit_field_name = String::from("b2");
    app.edit_field_offset = String::from("0x20");
    app.edit_field_type_idx = 3; // u64
    app.edit_field_comment = String::from("wide");
    assert!(app.update_field_from_input());
    assert_eq!(app.schema.len(), 2);
    let b = app.schema.get(1).unwrap();
    assert_eq!(b.name, "b2");
    assert_eq!(b.offset, 32);
    assert_eq!(b.data_type, DataType::U64);
    assert_eq!(b.comment, "wide");
    assert_eq!(app.schema.get(0).unwrap().name, "a");
    // Bad offset text commits nothing.
    app.edit_field_offset = String::from("zz");
    assert!(!app.update_field_from_input());
    assert_eq!(app.schema.get(1).unwrap().name, "b2");
}

#[test]
fn delete_field_repairs_the_selection_atomically() {
    let mut app = SchematicApp::new();
    for i in 0..6 {
        app.schema.append(field("f", i, DataType::U8));
    }
    app.click_field(2, ClickKind::Ctrl);
    app.click_field(3, ClickKind::Ctrl);
    app.click_field(5, ClickKind::Ctrl);
    let removed = app.delete_field(3).unwrap();
    assert_eq!(removed.offset, 3);
    assert_eq!(app.schema.len(), 5);
    assert!(app.selection.is_selected(2));
    assert!(app.selection.is_selected(4));
    assert!(!app.selection.is_selected(3));
    assert!(!app.selection.is_selected(5));
    assert_eq!(app.selection.anchor, Some(4));
    assert!(matches!(app.delete_field(10), Err(SchemaError::IndexOutOfRange)));
}

#[test]
fn clearing_the_schema_empties_the_selection_with_it() {
    let mut app = SchematicApp::new();
    app.schema.append(field("a", 0, DataType::U8));
    app.schema.append(field("b", 1, DataType::U8));
    app.click_field(0, ClickKind::Ctrl);
    app.click_field(1, ClickKind::Ctrl);
    app.clear_fields();
    assert_eq!(app.schema.len(), 0);
    assert!(!app.selection.is_selected(0));
    assert!(!app.selection.is_selected(1));
    assert_eq!(app.selection.anchor, None);
}

#[test]
fn default_app_state_is_empty_and_hex_focused() {
    let app = SchematicApp::new();
    assert_eq!(app.view_focus, ViewFocus::HexView);
    assert_eq!(app.schema.len(), 0);
    assert!(!app.binary_data.is_loaded());
    assert!(!app.add_field_window_open);
    assert!(!app.edit_field_window_open);
    assert_eq!(app.new_field_offset, "0");
    assert!(app.schema_file_path.is_none());
}
