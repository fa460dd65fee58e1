use schematic::codec::ParseError;
use schematic::field::Field;
use schematic::schema::Schema;
use schematic::types::{DataType, Endianness};

fn field(name: &str, offset: usize, data_type: DataType, comment: &str, e: Endianness) -> Field {
    let mut f = Field::new(String::from(name), offset, data_type);
    f.comment = String::from(comment);
    f.endianness = e;
    f
}

fn same_fields(a: &Field, b: &Field) -> bool {
    a.name == b.name && a.offset == b.offset && a.data_type == b.data_type
        && a.comment == b.comment && a.endianness == b.endianness
}

#[test]
fn one_field_serializes_to_one_table() {
    let schema = Schema { fields: vec![field("A", 5, DataType::U16, "", Endianness::Little)] };
    let text = schema.to_text().unwrap();
    assert_eq!(
        text,
        "[[fields]]\nname = \"A\"\noffset = 5\ndata_type = \"u16\"\ncomment = \"\"\nendianness = \"Little\"\n"
    );
}

#[test]
fn empty_schema_serializes_to_an_empty_document() {
    let schema = Schema { fields: Vec::new() };
    assert_eq!(schema.to_text().unwrap(), "");
    let back = Schema::from_text("").unwrap();
    assert_eq!(back.fields.len(), 0);
}

#[test]
fn round_trip_keeps_order_and_every_attribute() {
    let schema = Schema {
        fields: vec![
            field("magic", 0, DataType::U32, "file signature", Endianness::Big),
            field("count", 4, DataType::U16, "", Endianness::Little),
            field("ratio", 6, DataType::F64, "stored little-endian", Endianness::Little),
            field("delta", 14, DataType::I8, "signed!", Endianness::Big),
        ],
    };
    let text = schema.to_text().unwrap();
    let back = Schema::from_text(&text).unwrap();
    assert_eq!(back.fields.len(), schema.fields.len());
    for (a, b) in schema.fields.iter().zip(back.fields.iter()) {
        assert!(same_fields(a, b));
    }
}

#[test]
fn round_trip_escapes_quotes_backslashes_and_line_breaks() {
    let schema = Schema {
        fields: vec![field(
            "a\"b\\c\nd",
            7,
            DataType::I32,
            "tab\there, \r return, quote \"",
            Endianness::Little,
        )],
    };
    let text = schema.to_text().unwrap();
    let back = Schema::from_text(&text).unwrap();
    assert_eq!(back.fields.len(), 1);
    assert!(same_fields(&schema.fields[0], &back.fields[0]));
}

#[test]
fn control_characters_cannot_be_serialized() {
    let schema = Schema { fields: vec![field("a\u{1}b", 0, DataType::U8, "", Endianness::Little)] };
    assert_eq!(schema.to_text(), None);
    let schema =
        Schema { fields: vec![field("ok", 0, DataType::U8, "bad\u{7f}", Endianness::Little)] };
    assert_eq!(schema.to_text(), None);
}

#[test]
fn missing_comment_line_defaults_to_empty_text() {
    let text =
        "[[fields]]\nname = \"A\"\noffset = 12\ndata_type = \"i64\"\nendianness = \"Big\"\n";
    let back = Schema::from_text(text).unwrap();
    assert_eq!(back.fields.len(), 1);
    assert_eq!(back.fields[0].name, "A");
    assert_eq!(back.fields[0].offset, 12);
    assert_eq!(back.fields[0].data_type, DataType::I64);
    assert_eq!(back.fields[0].comment, "");
    assert_eq!(back.fields[0].endianness, Endianness::Big);
}

#[test]
fn malformed_documents_fail_as_a_whole() {
    // An unknown type name.
    let text =
        "[[fields]]\nname = \"A\"\noffset = 1\ndata_type = \"u24\"\ncomment = \"\"\nendianness = \"Little\"\n";
    assert!(matches!(Schema::from_text(text), Err(ParseError::Malformed)));
    // A non-numeric offset.
    let text =
        "[[fields]]\nname = \"A\"\noffset = x\ndata_type = \"u8\"\ncomment = \"\"\nendianness = \"Little\"\n";
    assert!(matches!(Schema::from_text(text), Err(ParseError::Malformed)));
    // An offset too large for the machine.
    let text =
        "[[fields]]\nname = \"A\"\noffset = 99999999999999999999999\ndata_type = \"u8\"\ncomment = \"\"\nendianness = \"Little\"\n";
    assert!(matches!(Schema::from_text(text), Err(ParseError::Malformed)));
    // A missing name line.
    let text = "[[fields]]\noffset = 1\ndata_type = \"u8\"\ncomment = \"\"\nendianness = \"Little\"\n";
    assert!(matches!(Schema::from_text(text), Err(ParseError::Malformed)));
    // An unterminated string.
    let text = "[[fields]]\nname = \"A\noffset = 1\ndata_type = \"u8\"\ncomment = \"\"\nendianness = \"Little\"\n";
    assert!(matches!(Schema::from_text(text), Err(ParseError::Malformed)));
    // A bad escape.
    let text =
        "[[fields]]\nname = \"a\\qb\"\noffset = 1\ndata_type = \"u8\"\ncomment = \"\"\nendianness = \"Little\"\n";
    assert!(matches!(Schema::from_text(text), Err(ParseError::Malformed)));
    // A second, malformed table fails the whole document: no partial schema.
    let good =
        "[[fields]]\nname = \"A\"\noffset = 1\ndata_type = \"u8\"\ncomment = \"\"\nendianness = \"Little\"\n";
    let text = format!("{}[[fields]]\nname = \"B\"\n", good);
    assert!(matches!(Schema::from_text(&text), Err(ParseError::Malformed)));
    // Trailing garbage after the last table.
    let text = format!("{}junk", good);
    assert!(matches!(Schema::from_text(&text), Err(ParseError::Malformed)));
}

#[test]
fn escape_sequences_parse_back_to_their_characters() {
    let text =
        "[[fields]]\nname = \"q\\\" b\\\\ n\\n t\\t r\\r\"\noffset = 0\ndata_type = \"u8\"\ncomment = \"\"\nendianness = \"Little\"\n";
    let back = Schema::from_text(text).unwrap();
    assert_eq!(back.fields[0].name, "q\" b\\ n\n t\t r\r");
}
