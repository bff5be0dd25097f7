use sqlalchemy_lsp::positions::{offset_to_position, position_to_offset};
use sqlalchemy_lsp::types::Position;

const UTF8: &str = "utf-8";
const UTF16: &str = "utf-16";

#[test]
fn offset_to_pos_ascii() {
    let src = "hello\nworld\n";
    assert_eq!(offset_to_position(src, 0, UTF8), Position { line: 0, character: 0 });
    assert_eq!(offset_to_position(src, 5, UTF8), Position { line: 0, character: 5 });
    assert_eq!(offset_to_position(src, 6, UTF8), Position { line: 1, character: 0 });
    assert_eq!(offset_to_position(src, 11, UTF8), Position { line: 1, character: 5 });
}

#[test]
fn offset_to_pos_multibyte_utf16() {
    let src = "caféé\n";
    let pos = offset_to_position(src, src.len() - 1, UTF16);
    assert_eq!(pos, Position { line: 0, character: 5 });
}

#[test]
fn offset_to_pos_surrogate_utf16() {
    let src = "a𝕳b\n";
    let pos_b = offset_to_position(src, 5, UTF16);
    assert_eq!(pos_b, Position { line: 0, character: 3 });
}

#[test]
fn round_trip_utf8() {
    let src = "line1\nline2\nline3\n";
    for offset in [0, 5, 6, 11, 12] {
        let pos = offset_to_position(src, offset, UTF8);
        let back = position_to_offset(src, pos, UTF8);
        assert_eq!(back, offset, "round-trip failed at offset {offset}");
    }
}

#[test]
fn round_trip_utf16_multibyte() {
    let src = "caféé\n";
    for byte_offset in [0, 1, 2, 3, 5, 7] {
        if !src.is_char_boundary(byte_offset) {
            continue;
        }
        let pos = offset_to_position(src, byte_offset, UTF16);
        let back = position_to_offset(src, pos, UTF16);
        assert_eq!(back, byte_offset, "round-trip failed at byte {byte_offset}");
    }
}

#[test]
fn column_past_the_end_of_its_line_gives_the_text_length() {
    let src = "ab\ncd";
    assert_eq!(position_to_offset(src, Position { line: 0, character: 4 }, UTF8), 5);
    assert_eq!(position_to_offset(src, Position { line: 0, character: 3 }, UTF16), 5);
    assert_eq!(position_to_offset(src, Position { line: 0, character: 2 }, UTF8), 2);
    assert_eq!(position_to_offset(src, Position { line: 1, character: 2 }, UTF8), 5);
    assert_eq!(position_to_offset(src, Position { line: 7, character: 0 }, UTF8), 5);
}
