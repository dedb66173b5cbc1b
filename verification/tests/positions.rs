use bracket_scan::utils::char_position::{
    char_display_width, char_is_emoji, char_utf16_len, char_utf8_len, precompute_char_positions,
    resolve_position, CharPosition, PositionError,
};

fn at(line: usize, ch: usize, offset: usize) -> CharPosition {
    CharPosition { line, ch, offset }
}

#[test]
fn table_of_the_empty_text_is_empty() {
    assert!(precompute_char_positions("").is_empty());
}

#[test]
fn table_of_ascii_text() {
    let table = precompute_char_positions("ab\ncd");
    assert_eq!(table, vec![at(0, 0, 0), at(0, 1, 1), at(0, 2, 2), at(1, 0, 3), at(1, 1, 4)]);
}

#[test]
fn table_has_one_entry_for_each_byte() {
    for text in ["", "abc", "é", "日本語", "(🎉)", "a\u{2600}b\n\u{10000}"] {
        assert_eq!(precompute_char_positions(text).len(), text.len());
    }
}

#[test]
fn bytes_of_one_character_share_its_position() {
    // é has two bytes, 日 three, 🎉 four
    let table = precompute_char_positions("é日🎉x");
    assert_eq!(
        table,
        vec![
            at(0, 0, 0),
            at(0, 0, 0),
            at(0, 1, 1),
            at(0, 1, 1),
            at(0, 1, 1),
            at(0, 2, 2),
            at(0, 2, 2),
            at(0, 2, 2),
            at(0, 2, 2),
            at(0, 4, 4),
        ]
    );
}

#[test]
fn line_feed_starts_a_line_and_keeps_the_offset_running() {
    let table = precompute_char_positions("a\n\nb");
    assert_eq!(table, vec![at(0, 0, 0), at(0, 1, 1), at(1, 0, 2), at(2, 0, 3)]);
}

#[test]
fn emoji_of_the_basic_plane_widens_the_column_only() {
    let table = precompute_char_positions("\u{2600}x");
    assert_eq!(table[3], at(0, 2, 1));
    let table = precompute_char_positions("\u{2700}\u{FE0F}x");
    assert_eq!(table[6], at(0, 4, 2));
}

#[test]
fn column_starts_again_after_an_emoji_line() {
    let table = precompute_char_positions("🎉\nx");
    assert_eq!(table[4], at(0, 2, 2));
    assert_eq!(table[5], at(1, 0, 3));
}

#[test]
fn utf8_lengths_at_the_borders() {
    assert_eq!(char_utf8_len('\0'), 1);
    assert_eq!(char_utf8_len('\u{7F}'), 1);
    assert_eq!(char_utf8_len('\u{80}'), 2);
    assert_eq!(char_utf8_len('\u{7FF}'), 2);
    assert_eq!(char_utf8_len('\u{800}'), 3);
    assert_eq!(char_utf8_len('\u{FFFF}'), 3);
    assert_eq!(char_utf8_len('\u{10000}'), 4);
    assert_eq!(char_utf8_len('\u{10FFFF}'), 4);
}

#[test]
fn lengths_agree_with_the_standard_library() {
    for c in ['a', '\n', 'é', 'ß', '日', '\u{FFFD}', '🎉', '\u{2600}', '\u{10FFFF}', '\u{D7FF}', '\u{E000}'] {
        assert_eq!(char_utf8_len(c), c.len_utf8());
        assert_eq!(char_utf16_len(c), c.len_utf16());
    }
}

#[test]
fn utf16_lengths_at_the_border() {
    assert_eq!(char_utf16_len('\u{FFFF}'), 1);
    assert_eq!(char_utf16_len('\u{10000}'), 2);
}

#[test]
fn emoji_ranges_at_their_borders() {
    let ranges: [(u32, u32); 7] = [
        (0x1F300, 0x1F5FF),
        (0x1F600, 0x1F64F),
        (0x1F680, 0x1F6FF),
        (0x1F900, 0x1F9FF),
        (0x2600, 0x26FF),
        (0x2700, 0x27BF),
        (0xFE00, 0xFE0F),
    ];
    for (first, last) in ranges {
        assert!(char_is_emoji(char::from_u32(first).unwrap()));
        assert!(char_is_emoji(char::from_u32(last).unwrap()));
    }
    for outside in [0x25FF, 0x27C0, 0xFDFF, 0xFE10, 0x1F2FF, 0x1F650, 0x1F67F, 0x1F700, 0x1F8FF, 0x1FA00] {
        assert!(!char_is_emoji(char::from_u32(outside).unwrap()));
    }
    assert!(!char_is_emoji('a'));
    assert!(!char_is_emoji('日'));
}

#[test]
fn display_widths() {
    assert_eq!(char_display_width('a'), 1);
    assert_eq!(char_display_width('日'), 1);
    assert_eq!(char_display_width('\u{2600}'), 2);
    assert_eq!(char_display_width('\u{FE0F}'), 2);
    assert_eq!(char_display_width('🎉'), 2);
    assert_eq!(char_display_width('\u{1F650}'), 2);
    assert_eq!(char_display_width('\u{10000}'), 2);
}

#[test]
fn resolving_one_index_agrees_with_the_table() {
    for text in ["", "abc", "a\nb", "é日🎉x", "(\u{2600})\n\u{10000}[]", "\n\n"] {
        let table = precompute_char_positions(text);
        for (index, entry) in table.iter().enumerate() {
            assert_eq!(resolve_position(text, index), Ok(*entry));
        }
    }
}

#[test]
fn resolving_one_index() {
    assert_eq!(resolve_position("ab\ncd", 4), Ok(at(1, 1, 4)));
    // the second byte of the emoji
    assert_eq!(resolve_position("(🎉)", 2), Ok(at(0, 1, 1)));
    assert_eq!(resolve_position("(🎉)", 5), Ok(at(0, 3, 3)));
}

#[test]
fn index_beyond_the_text_is_out_of_bounds() {
    assert_eq!(resolve_position("", 0), Err(PositionError::OutOfBounds { index: 0, len: 0 }));
    assert_eq!(resolve_position("abc", 3), Err(PositionError::OutOfBounds { index: 3, len: 3 }));
    assert_eq!(
        resolve_position("(🎉)", usize::MAX),
        Err(PositionError::OutOfBounds { index: usize::MAX, len: 6 })
    );
}
