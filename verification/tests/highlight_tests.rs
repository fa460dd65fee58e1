use schematic::field::Field;
use schematic::highlight::{HexView, Span};
use schematic::types::{DataType, Endianness};

fn field(name: &str, offset: usize, data_type: DataType) -> Field {
    Field::new(String::from(name), offset, data_type)
}

#[test]
fn grouping_emits_one_span_per_maximal_run() {
    // A row of 16 bytes; A covers bytes 0..4, B bytes 4..6, the rest is
    // unassigned: exactly two spans.
    let fields = vec![field("A", 0, DataType::U32), field("B", 4, DataType::U16)];
    let spans = HexView::row_spans(&fields, 0, 16);
    assert_eq!(
        spans,
        vec![
            Span { field_index: 0, first_byte: 0, last_byte: 3 },
            Span { field_index: 1, first_byte: 4, last_byte: 5 },
        ]
    );
}

#[test]
fn unassigned_bytes_split_runs() {
    // A at 0..2 and B at 4..6 leave a hole at bytes 2..4.
    let fields = vec![field("A", 0, DataType::U16), field("B", 4, DataType::U16)];
    let spans = HexView::row_spans(&fields, 0, 8);
    assert_eq!(
        spans,
        vec![
            Span { field_index: 0, first_byte: 0, last_byte: 1 },
            Span { field_index: 1, first_byte: 4, last_byte: 5 },
        ]
    );
}

#[test]
fn adjacent_fields_get_separate_spans() {
    let fields = vec![field("A", 0, DataType::U16), field("B", 2, DataType::U16)];
    let spans = HexView::row_spans(&fields, 0, 4);
    assert_eq!(
        spans,
        vec![
            Span { field_index: 0, first_byte: 0, last_byte: 1 },
            Span { field_index: 1, first_byte: 2, last_byte: 3 },
        ]
    );
}

#[test]
fn rows_past_the_first_use_absolute_offsets() {
    // A field covering bytes 18..22 shows up in the second 16-byte row at
    // in-row bytes 2..6.
    let fields = vec![field("A", 18, DataType::U32)];
    let spans = HexView::row_spans(&fields, 16, 16);
    assert_eq!(spans, vec![Span { field_index: 0, first_byte: 2, last_byte: 5 }]);
}

#[test]
fn overlap_resolves_to_the_earlier_inserted_field() {
    // X covers 8..12, Y covers 10..12: both claim offset 10; X wins both
    // in lookup and in grouping.
    let fields = vec![field("X", 8, DataType::U32), field("Y", 10, DataType::U16)];
    assert_eq!(HexView::get_field_at_offset(&fields, 10), Some(0));
    assert_eq!(HexView::get_field_at_offset(&fields, 11), Some(0));
    assert_eq!(HexView::get_field_at_offset(&fields, 8), Some(0));
    assert_eq!(HexView::get_field_at_offset(&fields, 12), None);
    let spans = HexView::row_spans(&fields, 0, 16);
    assert_eq!(spans, vec![Span { field_index: 0, first_byte: 8, last_byte: 11 }]);
    // And the value at offset 10 decodes through X's range, not Y's.
    let x = &fields[HexView::get_field_at_offset(&fields, 10).unwrap()];
    assert_eq!(x.name, "X");
    assert_eq!(x.offset, 8);
}

#[test]
fn lookup_misses_when_no_field_covers_the_offset() {
    let fields = vec![field("A", 4, DataType::U16)];
    assert_eq!(HexView::get_field_at_offset(&fields, 3), None);
    assert_eq!(HexView::get_field_at_offset(&fields, 4), Some(0));
    assert_eq!(HexView::get_field_at_offset(&fields, 5), Some(0));
    assert_eq!(HexView::get_field_at_offset(&fields, 6), None);
    assert_eq!(HexView::get_field_at_offset(&Vec::new(), 0), None);
}

#[test]
fn span_geometry_in_both_coordinate_spaces() {
    // Three characters per byte in the wide space, minus the trailing
    // separator; one character per byte in the narrow space.
    assert_eq!(HexView::wide_span_cols(0, 3), (0, 11));
    assert_eq!(HexView::wide_span_cols(4, 5), (12, 5));
    assert_eq!(HexView::wide_span_cols(15, 15), (45, 2));
    assert_eq!(HexView::narrow_span_cols(0, 3), (0, 4));
    assert_eq!(HexView::narrow_span_cols(4, 5), (4, 2));
    assert_eq!(HexView::narrow_span_cols(15, 15), (15, 1));
}

#[test]
fn printable_bytes_show_themselves_and_others_show_a_dot() {
    assert_eq!(HexView::ascii_glyph(b'A'), 'A');
    assert_eq!(HexView::ascii_glyph(b' '), ' ');
    assert_eq!(HexView::ascii_glyph(b'~'), '~');
    assert_eq!(HexView::ascii_glyph(0x1F), '.');
    assert_eq!(HexView::ascii_glyph(0x7F), '.');
    assert_eq!(HexView::ascii_glyph(0x00), '.');
    assert_eq!(HexView::ascii_glyph(0xFF), '.');
}

#[test]
fn hex_view_defaults_to_sixteen_bytes_per_row() {
    assert_eq!(HexView::new().bytes_per_row, 16);
    let e: Endianness = Default::default();
    assert_eq!(e, Endianness::Little);
}
