use clock::vga_buffer::{Color, ColorCode, ScreenChar, Writer};

fn cell(w: &Writer, row: usize, col: usize) -> ScreenChar {
    w.as_cells()[row * 80 + col]
}

#[test]
fn color_codes_pack_background_high() {
    assert_eq!(ColorCode::new(Color::White, Color::Blue).0, 0x1F);
    assert_eq!(ColorCode::new(Color::LightGray, Color::Black).0, 0x07);
    assert_eq!(ColorCode::new(Color::Yellow, Color::Red).0, 0x4E);
    assert_eq!(Color::LightCyan.number(), 11);
}

#[test]
fn new_writer_is_blank_light_gray() {
    let w = Writer::new();
    assert_eq!(w.as_cells().len(), 2000);
    assert!(w.as_cells().iter().all(|c| c.ascii_character == b' ' && c.color_code.0 == 0x07));
    assert_eq!(Writer::WIDTH, 80);
    assert_eq!(Writer::HEIGHT, 25);
}

#[test]
fn put_at_paints_one_cell_and_ignores_off_screen() {
    let mut w = Writer::new();
    w.put_at(3, 7, 0xC9, Color::LightCyan, Color::Blue);
    assert_eq!(cell(&w, 3, 7).ascii_character, 0xC9);
    assert_eq!(cell(&w, 3, 7).color_code.0, 0x1B);
    let before: Vec<ScreenChar> = w.as_cells().to_vec();
    w.put_at(25, 0, b'X', Color::White, Color::Red);
    w.put_at(0, 80, b'X', Color::White, Color::Red);
    assert_eq!(w.as_cells(), &before[..]);
}

#[test]
fn put_str_at_clips_at_right_edge() {
    let mut w = Writer::new();
    w.put_str_at(0, 78, "abc", Color::White, Color::Black);
    assert_eq!(cell(&w, 0, 78).ascii_character, b'a');
    assert_eq!(cell(&w, 0, 79).ascii_character, b'b');
    assert_eq!(cell(&w, 1, 0).ascii_character, b' ');
}

#[test]
fn fill_paints_whole_screen() {
    let mut w = Writer::new();
    w.fill(b'#', Color::Green, Color::Black);
    assert!(w.as_cells().iter().all(|c| c.ascii_character == b'#' && c.color_code.0 == 0x02));
}

#[test]
fn write_byte_goes_to_bottom_row() {
    let mut w = Writer::new();
    w.write_byte(b'H');
    w.write_byte(b'i');
    assert_eq!(cell(&w, 24, 0).ascii_character, b'H');
    assert_eq!(cell(&w, 24, 1).ascii_character, b'i');
    assert_eq!(cell(&w, 24, 0).color_code.0, 0x07);
}

#[test]
fn newline_scrolls_up() {
    let mut w = Writer::new();
    w.write_string("A\nB");
    assert_eq!(cell(&w, 23, 0).ascii_character, b'A');
    assert_eq!(cell(&w, 24, 0).ascii_character, b'B');
    w.write_byte(b'\n');
    assert_eq!(cell(&w, 22, 0).ascii_character, b'A');
    assert_eq!(cell(&w, 23, 0).ascii_character, b'B');
    assert_eq!(cell(&w, 24, 0).ascii_character, b' ');
}

#[test]
fn full_row_wraps_with_scroll() {
    let mut w = Writer::new();
    for _ in 0..81 {
        w.write_byte(b'x');
    }
    for col in 0..80 {
        assert_eq!(cell(&w, 23, col).ascii_character, b'x');
    }
    assert_eq!(cell(&w, 24, 0).ascii_character, b'x');
    assert_eq!(cell(&w, 24, 1).ascii_character, b' ');
}

#[test]
fn unprintable_bytes_become_squares() {
    let mut w = Writer::new();
    w.write_string("a\té");
    assert_eq!(cell(&w, 24, 0).ascii_character, b'a');
    assert_eq!(cell(&w, 24, 1).ascii_character, 0xfe);
    assert_eq!(cell(&w, 24, 2).ascii_character, 0xfe);
    assert_eq!(cell(&w, 24, 3).ascii_character, 0xfe);
    assert_eq!(cell(&w, 24, 4).ascii_character, b' ');
}

#[test]
fn clear_screen_blanks_and_homes_cursor() {
    let mut w = Writer::new();
    w.fill(b'#', Color::Green, Color::Black);
    w.write_string("abc");
    w.clear_screen();
    assert!(w.as_cells().iter().all(|c| c.ascii_character == b' ' && c.color_code.0 == 0x07));
    w.write_byte(b'z');
    assert_eq!(cell(&w, 24, 0).ascii_character, b'z');
}
