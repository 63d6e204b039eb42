use test_os::vga::{
    Color, ColorCode, Writer, BUFFER_HEIGHT, BUFFER_WIDTH, NEWLINE, PLACEHOLDER,
};

fn row_text(w: &Writer, row: usize, len: usize) -> String {
    let mut out = String::new();
    let mut col: usize = 0;
    while col < len {
        out.push(w.char_at(row, col).ascii_character as char);
        col += 1;
    }
    out
}

#[test]
fn test_color_guard() {
    let mut w = Writer::new();
    assert_eq!(w.color(), ColorCode::default());
    {
        let guard = w.with_color(Color::Red, Color::White);
        assert_eq!(w.color(), ColorCode::new(Color::Red, Color::White));
        w.restore_color(guard);
    }
    assert_eq!(w.color(), ColorCode::default());
}

#[test]
fn nested_color_guards_restore_in_lifo_order() {
    let mut w = Writer::new();
    let outer = w.with_color(Color::Red, Color::White);
    let inner = w.with_color(Color::Blue, Color::Black);
    assert_eq!(w.color(), ColorCode::new(Color::Blue, Color::Black));
    w.restore_color(inner);
    assert_eq!(w.color(), ColorCode::new(Color::Red, Color::White));
    w.restore_color(outer);
    assert_eq!(w.color(), ColorCode::default());
}

#[test]
fn test_println() {
    let mut w = Writer::new();
    w.write_string("Hello World!\n");
}

#[test]
fn test_println_output() {
    let mut w = Writer::new();
    w.write_string("\n");
    let start_row = w.row();
    let s = "Foo Bar";
    w.write_string(s);
    w.write_string("\n");
    for (idx, c) in s.chars().enumerate() {
        let screen_char = w.char_at(start_row, idx).ascii_character;
        assert_eq!(c, screen_char as char);
    }
}

#[test]
fn test_println_many() {
    let mut w = Writer::new();
    for i in 0..200 {
        w.write_string(&format!("Hello World! {}\n", i));
    }
    let last_text = "Hello World! 199";
    for (idx, c) in last_text.chars().enumerate() {
        let vga_char = w.char_at(BUFFER_HEIGHT - 2, idx).ascii_character;
        assert_eq!(c, vga_char as char);
    }
}

#[test]
fn basic_output_reads_back() {
    let mut w = Writer::new();
    w.write_string("Hello World!\n");
    assert_eq!(row_text(&w, 0, 12), "Hello World!");
}

#[test]
fn color_codes_pack_nibbles() {
    assert_eq!(ColorCode::new(Color::Red, Color::White).0, 0xf4);
    assert_eq!(ColorCode::new(Color::White, Color::Black).0, 0x0f);
    assert_eq!(ColorCode::default().0, 0x0f);
    assert_eq!(Color::Black.number(), 0);
    assert_eq!(Color::LightCyan.number(), 11);
    assert_eq!(Color::White.number(), 15);
}

#[test]
fn non_printable_bytes_become_placeholder() {
    for b in [0x00u8, 0x1f, 0x7f, 0xff, 0x09] {
        let mut w = Writer::new();
        w.write_byte(b);
        assert_eq!(w.char_at(0, 0).ascii_character, PLACEHOLDER);
    }
    let mut w = Writer::new();
    w.write_byte(0x20);
    w.write_byte(0x7e);
    assert_eq!(w.char_at(0, 0).ascii_character, 0x20);
    assert_eq!(w.char_at(0, 1).ascii_character, 0x7e);
}

#[test]
fn non_ascii_string_is_substituted_visibly() {
    let mut w = Writer::new();
    // "é" encodes as two non-printable bytes; each is substituted.
    w.write_string("é");
    assert_eq!(w.char_at(0, 0).ascii_character, PLACEHOLDER);
    assert_eq!(w.char_at(0, 1).ascii_character, PLACEHOLDER);
}

#[test]
fn wrap_places_extra_byte_on_next_row() {
    let mut w = Writer::new();
    for _ in 0..BUFFER_WIDTH {
        w.write_byte(b'x');
    }
    w.write_byte(b'y');
    assert_eq!(w.char_at(0, BUFFER_WIDTH - 1).ascii_character, b'x');
    assert_eq!(w.char_at(1, 0).ascii_character, b'y');
    assert_eq!(w.row(), 1);
    assert_eq!(w.column(), 1);
}

#[test]
fn empty_string_is_a_no_op() {
    let mut w = Writer::new();
    w.write_string("");
    assert_eq!(w.row(), 0);
    assert_eq!(w.column(), 0);
    assert_eq!(w.color(), ColorCode::default());
    for col in 0..BUFFER_WIDTH {
        assert_eq!(w.char_at(0, col).ascii_character, b' ');
    }
}

#[test]
fn exactly_one_row_of_bytes_fills_it_without_scrolling() {
    let mut w = Writer::new();
    for _ in 0..BUFFER_WIDTH {
        w.write_byte(b'z');
    }
    for col in 0..BUFFER_WIDTH {
        assert_eq!(w.char_at(0, col).ascii_character, b'z');
    }
    // The row is full and the cursor has moved on, but nothing scrolled:
    // the filled row is still the top row.
    assert_eq!(w.row(), 1);
    assert_eq!(w.column(), 0);
}

#[test]
fn newline_sentinel_is_not_rendered() {
    let mut w = Writer::new();
    w.write_byte(NEWLINE);
    assert_eq!(w.row(), 1);
    assert_eq!(w.column(), 0);
    assert_eq!(w.char_at(0, 0).ascii_character, b' ');
}

#[test]
fn scroll_preserves_order_of_last_lines() {
    let mut w = Writer::new();
    let total = BUFFER_HEIGHT + 5;
    for i in 0..total {
        w.write_string(&format!("line {}\n", i));
    }
    // The visible rows above the cursor row hold the last height - 1 lines,
    // in order; the cursor row itself is blank.
    for j in 0..BUFFER_HEIGHT - 1 {
        let expected = format!("line {}", total - (BUFFER_HEIGHT - 1) + j);
        assert_eq!(row_text(&w, j, expected.len()), expected);
    }
    for col in 0..BUFFER_WIDTH {
        let cell = w.char_at(BUFFER_HEIGHT - 1, col);
        assert_eq!(cell.ascii_character, b' ');
        assert_eq!(cell.color_code, ColorCode::default());
    }
}

#[test]
fn scrolled_row_is_cleared_regardless_of_prior_contents() {
    let mut w = Writer::new();
    // Fill the whole screen with text, then force one scroll: the row the
    // cursor lands on must be fully blank with the default attribute even
    // though it previously held text.
    let guard = w.with_color(Color::Yellow, Color::Blue);
    for i in 0..BUFFER_HEIGHT + 1 {
        w.write_string(&format!("row contents {}\n", i));
    }
    w.restore_color(guard);
    for col in 0..BUFFER_WIDTH {
        let cell = w.char_at(BUFFER_HEIGHT - 1, col);
        assert_eq!(cell.ascii_character, b' ');
        assert_eq!(cell.color_code, ColorCode::default());
    }
}
