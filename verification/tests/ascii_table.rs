use rdn::asciitable::{glyph, info_line, AsciiTable};

#[test]
fn glyphs() {
    assert_eq!(glyph(65), 'A');
    assert_eq!(glyph(32), ' ');
    assert_eq!(glyph(126), '~');
    assert_eq!(glyph(127), '.');
    assert_eq!(glyph(10), '.');
    assert_eq!(glyph(200), '.');
}

#[test]
fn info_lines() {
    assert_eq!(info_line(65), " Char: 'A' | Dec: 65 | Hex: 41 | Oct: 101");
    assert_eq!(info_line(7), " Char: #7 | Dec: 7 | Hex: 07 | Oct: 007");
    assert_eq!(info_line(255), " Char: #255 | Dec: 255 | Hex: FF | Oct: 377");
}

#[test]
fn cursor_wraps() {
    let mut t = AsciiTable::new();
    t.cursor_up();
    assert_eq!(t.cursor, 240);
    t.cursor_down();
    assert_eq!(t.cursor, 0);
    t.cursor_left();
    assert_eq!(t.cursor, 255);
    t.cursor_right();
    assert_eq!(t.cursor, 0);
    t.cursor_down();
    t.cursor_right();
    assert_eq!(t.cursor, 17);
}
