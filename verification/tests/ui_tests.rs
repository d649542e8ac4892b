use clock::live::Ticker;
use clock::rtc::DateTime;
use clock::ui::{draw_dynamic, draw_frame, format_date, format_iso, format_time, put_centered, FmtBuf};
use clock::vga_buffer::{Color, ScreenChar, Writer};

fn cell(w: &Writer, row: usize, col: usize) -> ScreenChar {
    w.as_cells()[row * 80 + col]
}

fn row_text(w: &Writer, row: usize, col: usize, len: usize) -> Vec<u8> {
    (col..col + len).map(|c| cell(w, row, c).ascii_character).collect()
}

fn sample() -> DateTime {
    DateTime { year: 2026, month: 6, day: 19, hour: 16, minute: 0, second: 28 }
}

#[test]
fn frame_has_box_divider_and_title() {
    let mut w = Writer::new();
    draw_frame(&mut w);
    assert_eq!(cell(&w, 6, 15).ascii_character, 0xC9);
    assert_eq!(cell(&w, 6, 64).ascii_character, 0xBB);
    assert_eq!(cell(&w, 18, 15).ascii_character, 0xC8);
    assert_eq!(cell(&w, 18, 64).ascii_character, 0xBC);
    assert_eq!(cell(&w, 6, 40).ascii_character, 0xCD);
    assert_eq!(cell(&w, 12, 15).ascii_character, 0xBA);
    assert_eq!(cell(&w, 9, 15).ascii_character, 0xCC);
    assert_eq!(cell(&w, 9, 64).ascii_character, 0xB9);
    assert_eq!(cell(&w, 9, 30).ascii_character, 0xCD);
    assert_eq!(cell(&w, 6, 15).color_code.0, 0x1B);
    assert_eq!(row_text(&w, 8, 29, 22), b"BARE-METAL  RTC  CLOCK".to_vec());
    assert_eq!(cell(&w, 8, 29).color_code.0, 0x1F);
    assert_eq!(cell(&w, 0, 0).ascii_character, b' ');
    assert_eq!(cell(&w, 0, 0).color_code.0, 0x1F);
    assert_eq!(cell(&w, 19, 15).ascii_character, b' ');
}

#[test]
fn dynamic_rows_show_date_time_and_iso() {
    let mut w = Writer::new();
    draw_frame(&mut w);
    draw_dynamic(&mut w, &sample(), true);
    assert_eq!(row_text(&w, 11, 30, 20), b"Friday, 19 June 2026".to_vec());
    assert_eq!(cell(&w, 11, 30).color_code.0, 0x1E);
    assert_eq!(row_text(&w, 13, 34, 12), b"16 : 00 : 28".to_vec());
    assert_eq!(cell(&w, 13, 34).color_code.0, 0x1A);
    assert_eq!(row_text(&w, 15, 30, 19), b"2026-06-19T16:00:28".to_vec());
    assert_eq!(cell(&w, 15, 30).color_code.0, 0x17);
    assert_eq!(
        row_text(&w, 17, 22, 35),
        b"live  reading CMOS RTC @ 0x70/0x71 ".to_vec()
    );
    assert_eq!(cell(&w, 17, 57).ascii_character, 0x07);
    assert_eq!(cell(&w, 17, 57).color_code.0, 0x1A);
    // the border stays
    assert_eq!(cell(&w, 11, 15).ascii_character, 0xBA);
}

#[test]
fn heartbeat_dot_is_dark_when_not_blinking() {
    let mut w = Writer::new();
    draw_frame(&mut w);
    draw_dynamic(&mut w, &sample(), false);
    assert_eq!(cell(&w, 17, 57).ascii_character, 0x07);
    assert_eq!(cell(&w, 17, 57).color_code.0, 0x11);
}

#[test]
fn shorter_date_leaves_no_old_characters() {
    let mut w = Writer::new();
    draw_frame(&mut w);
    draw_dynamic(&mut w, &DateTime { year: 2026, month: 9, day: 30, ..sample() }, true);
    draw_dynamic(&mut w, &DateTime { year: 2026, month: 5, day: 1, ..sample() }, false);
    // "Friday, 1 May 2026" is 18 bytes, centred from column 31
    assert_eq!(row_text(&w, 11, 31, 18), b"Friday, 1 May 2026".to_vec());
    for c in 16..31 {
        assert_eq!(cell(&w, 11, c).ascii_character, b' ');
    }
    for c in 49..64 {
        assert_eq!(cell(&w, 11, c).ascii_character, b' ');
    }
}

#[test]
fn formatted_lines() {
    assert_eq!(format_date(&sample()).as_str(), "Friday, 19 June 2026");
    assert_eq!(format_time(&sample()).as_str(), "16 : 00 : 28");
    assert_eq!(format_iso(&sample()).as_str(), "2026-06-19T16:00:28");
    let early = DateTime { year: 999, month: 1, day: 2, hour: 3, minute: 4, second: 5 };
    assert_eq!(format_iso(&early).as_str(), "999-01-02T03:04:05");
    assert_eq!(format_time(&early).as_str(), "03 : 04 : 05");
}

#[test]
fn fmt_buf_drops_what_does_not_fit() {
    let mut b = FmtBuf::new();
    for _ in 0..10 {
        b.write_str("0123456789");
    }
    assert_eq!(b.as_str().len(), 80);
    b.write_decimal(7);
    assert_eq!(b.as_str().len(), 80);
}

#[test]
fn fmt_buf_cut_character_reads_as_empty() {
    let mut b = FmtBuf::new();
    for _ in 0..79 {
        b.push_byte(b'a');
    }
    b.write_str("é");
    assert_eq!(b.as_str(), "");
}

#[test]
fn fmt_buf_digits() {
    let mut b = FmtBuf::new();
    b.write_decimal(0);
    b.write_str(" ");
    b.write_decimal(65535);
    b.write_str(" ");
    b.write_two_digits(7);
    b.write_two_digits(123);
    assert_eq!(b.as_str(), "0 65535 07123");
}

#[test]
fn ticker_redraws_only_on_change() {
    let mut t = Ticker::new();
    let a = sample();
    let b = DateTime { second: 29, ..a };
    assert_eq!(t.tick(a), Some(true));
    assert_eq!(t.tick(a), None);
    assert_eq!(t.tick(b), Some(false));
    assert_eq!(t.tick(b), None);
    assert_eq!(t.tick(a), Some(true));
}

#[test]
fn time_and_iso_lines_keep_their_width() {
    for (h, m, s) in [(0u8, 0u8, 0u8), (9, 5, 7), (23, 59, 59), (12, 30, 1)] {
        let dt = DateTime { year: 2026, month: 1, day: 2, hour: h, minute: m, second: s };
        assert_eq!(format_time(&dt).as_str().len(), 12);
        assert_eq!(format_iso(&dt).as_str().len(), 19);
    }
}

#[test]
fn new_fmt_buf_reads_as_empty_text() {
    assert_eq!(FmtBuf::new().as_str(), "");
}

#[test]
fn centred_text_padding_differs_by_at_most_one() {
    for text in ["a", "ab", "abc", "BARE-METAL  RTC  CLOCK"] {
        let mut w = Writer::new();
        put_centered(&mut w, 3, text, Color::White);
        let start = (16..64).find(|&c| cell(&w, 3, c).ascii_character != b' ').unwrap();
        let left = start - 16;
        let right = 64 - (start + text.len());
        assert!(right == left || right == left + 1);
    }
}
