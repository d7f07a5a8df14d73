use language_server::line_numbers::{count_lines, src_span_to_lsp_range, LineNumbers};
use language_server::span::{Position, Range, SrcSpan};

#[test]
fn byte_index_on_ascii_lines() {
    let table = LineNumbers::new("one\ntwo\nthree");
    assert_eq!(table.byte_index(0, 0), 0);
    assert_eq!(table.byte_index(0, 2), 2);
    assert_eq!(table.byte_index(1, 0), 4);
    assert_eq!(table.byte_index(1, 3), 7);
    assert_eq!(table.byte_index(2, 5), 13);
}

#[test]
fn byte_index_counts_utf16_code_units() {
    // 'é' takes two bytes and one code unit, the emoji four bytes and two.
    let table = LineNumbers::new("é😀x\nab");
    assert_eq!(table.byte_index(0, 0), 0);
    assert_eq!(table.byte_index(0, 1), 2);
    assert_eq!(table.byte_index(0, 3), 6);
    assert_eq!(table.byte_index(0, 4), 7);
    assert_eq!(table.byte_index(1, 1), 9);
}

#[test]
fn byte_index_inside_a_surrogate_pair_moves_past_the_character() {
    let table = LineNumbers::new("😀x");
    assert_eq!(table.byte_index(0, 1), 4);
    assert_eq!(table.byte_index(0, 2), 4);
}

#[test]
fn byte_index_clamps_a_line_past_the_end() {
    let table = LineNumbers::new("one\ntwo");
    assert_eq!(table.byte_index(2, 0), 7);
    assert_eq!(table.byte_index(u32::MAX, u32::MAX), 7);
}

#[test]
fn byte_index_clamps_a_column_past_the_line() {
    let table = LineNumbers::new("one\ntwo");
    assert_eq!(table.byte_index(0, 3), 3);
    assert_eq!(table.byte_index(0, 4), 3);
    assert_eq!(table.byte_index(0, 1000), 3);
    assert_eq!(table.byte_index(1, 1000), 7);
}

#[test]
fn byte_index_never_leaves_the_text() {
    let text = "a\n\nééé\n😀";
    let table = LineNumbers::new(text);
    for line in 0..6 {
        for character in 0..8 {
            assert!(table.byte_index(line, character) <= text.len());
        }
    }
}

#[test]
fn byte_index_of_empty_text() {
    let table = LineNumbers::new("");
    assert_eq!(table.byte_index(0, 0), 0);
    assert_eq!(table.byte_index(0, 5), 0);
    assert_eq!(table.byte_index(3, 0), 0);
}

#[test]
fn position_of_offsets() {
    let table = LineNumbers::new("one\ntwo\nthree");
    assert_eq!(table.position(0), Position { line: 0, character: 0 });
    assert_eq!(table.position(3), Position { line: 0, character: 3 });
    assert_eq!(table.position(4), Position { line: 1, character: 0 });
    assert_eq!(table.position(9), Position { line: 2, character: 1 });
    assert_eq!(table.position(13), Position { line: 2, character: 5 });
}

#[test]
fn position_counts_utf16_code_units() {
    let table = LineNumbers::new("é😀x\nab");
    assert_eq!(table.position(2), Position { line: 0, character: 1 });
    assert_eq!(table.position(6), Position { line: 0, character: 3 });
    assert_eq!(table.position(7), Position { line: 0, character: 4 });
    assert_eq!(table.position(8), Position { line: 1, character: 0 });
}

#[test]
fn position_clamps_an_offset_past_the_end() {
    let table = LineNumbers::new("one\ntwo");
    assert_eq!(table.position(7), Position { line: 1, character: 3 });
    assert_eq!(table.position(1000), Position { line: 1, character: 3 });
}

#[test]
fn position_after_a_final_newline() {
    let table = LineNumbers::new("one\n");
    assert_eq!(table.position(4), Position { line: 1, character: 0 });
    assert_eq!(table.byte_index(1, 0), 4);
}

#[test]
fn position_round_trip() {
    let text = "pub fn main() {\n  \"héllo 😀\"\n}\n";
    let table = LineNumbers::new(text);
    for (offset, _) in text.char_indices().chain(std::iter::once((text.len(), ' '))) {
        let position = table.position(offset);
        assert_eq!(table.byte_index(position.line, position.character), offset);
        let span = SrcSpan { start: offset, end: offset };
        let range = src_span_to_lsp_range(span, &table);
        assert_eq!(range, Range { start: position, end: position });
    }
}

#[test]
fn range_of_a_span() {
    let table = LineNumbers::new("import gleam/io\n\npub fn main() {}\n");
    let range = src_span_to_lsp_range(SrcSpan { start: 7, end: 24 }, &table);
    assert_eq!(
        range,
        Range {
            start: Position { line: 0, character: 7 },
            end: Position { line: 2, character: 7 },
        }
    );
}

#[test]
fn span_contains_both_ends() {
    let span = SrcSpan { start: 3, end: 5 };
    assert!(!span.contains(2));
    assert!(span.contains(3));
    assert!(span.contains(4));
    assert!(span.contains(5));
    assert!(!span.contains(6));
}

#[test]
fn table_keeps_its_text() {
    let table = LineNumbers::new("a\nb");
    assert_eq!(table.text(), "a\nb");
}

#[test]
fn lines_are_counted_as_std_counts_them() {
    for text in ["", "a", "a\n", "a\nb", "a\n\n", "\n", "a\r\nb\r\n", "é\n😀"] {
        assert_eq!(count_lines(text) as usize, text.lines().count(), "{:?}", text);
    }
    assert_eq!(count_lines("a\nb\nc"), 3);
    assert_eq!(count_lines("a\nb\nc\n"), 3);
}
