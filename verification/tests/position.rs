use guicons::position::{LineIndex, Position};

#[test]
fn positions_count_lines_and_utf16_columns() {
    let text = "ab\n\u{1F600}c\n";
    let index = LineIndex::new(text);
    assert_eq!(index.position(text, 0), Position { line: 0, character: 0 });
    assert_eq!(index.position(text, 2), Position { line: 0, character: 2 });
    assert_eq!(index.position(text, 3), Position { line: 1, character: 0 });
    assert_eq!(index.position(text, 7), Position { line: 1, character: 2 });
    assert_eq!(index.position(text, 9), Position { line: 2, character: 0 });
}

#[test]
fn an_offset_past_the_end_is_clamped() {
    let text = "ab\ncd";
    let index = LineIndex::new(text);
    assert_eq!(index.position(text, 100), Position { line: 1, character: 2 });
}

#[test]
fn offsets_come_back_from_positions() {
    let text = "ab\n\u{1F600}c\n";
    let index = LineIndex::new(text);
    for offset in [0usize, 1, 2, 3, 7, 8, 9] {
        let position = index.position(text, offset);
        assert_eq!(index.offset(text, position), Some(offset), "{offset}");
    }
}

#[test]
fn a_column_past_the_line_end_lands_on_the_next_line() {
    let text = "ab\ncd";
    let index = LineIndex::new(text);
    assert_eq!(index.offset(text, Position { line: 0, character: 10 }), Some(3));
    assert_eq!(index.offset(text, Position { line: 1, character: 10 }), Some(5));
    assert_eq!(index.offset(text, Position { line: 2, character: 0 }), None);
}

#[test]
fn a_range_converts_both_ends() {
    let text = "[docker]\nfile = \"d.svg\"\n";
    let index = LineIndex::new(text);
    let range = index.range(text, 9..23);
    assert_eq!(range.start, Position { line: 1, character: 0 });
    assert_eq!(range.end, Position { line: 1, character: 14 });
}
