use core::fmt::Write;
use rust_os::vga_buffer::{
    Color, ColorCode, ScreenChar, Writer, _print, BUFFER_HEIGHT, BUFFER_WIDTH,
};

fn blank() -> ScreenChar {
    ScreenChar { ascii: b' ', color: ColorCode(0x0f) }
}

fn row_text(w: &Writer, row: usize, len: usize) -> Vec<u8> {
    (0..len).map(|c| w.char_at(row, c).ascii).collect()
}

fn row_is_blank(w: &Writer, row: usize) -> bool {
    (0..BUFFER_WIDTH).all(|c| w.char_at(row, c) == blank())
}

fn row_shows(w: &Writer, row: usize, text: &str) -> bool {
    let bytes = text.as_bytes();
    (0..BUFFER_WIDTH).all(|c| {
        let cell = w.char_at(row, c);
        if c < bytes.len() {
            cell.ascii == bytes[c] && cell.color == ColorCode(0x0f)
        } else {
            cell == blank()
        }
    })
}

#[test]
fn test_println_simple() {
    let mut w = Writer::default();
    _print(&mut w, "test_println_simple output\n");
    assert!(row_shows(&w, BUFFER_HEIGHT - 2, "test_println_simple output"));
    assert!(row_is_blank(&w, BUFFER_HEIGHT - 1));
    assert_eq!(w.column(), 0);
}

#[test]
fn test_println_many() {
    let mut w = Writer::default();
    for _ in 0..200 {
        _print(&mut w, "test_println_many output\n");
    }
    for row in 0..BUFFER_HEIGHT - 1 {
        assert!(row_shows(&w, row, "test_println_many output"));
    }
    assert!(row_is_blank(&w, BUFFER_HEIGHT - 1));
    assert_eq!(w.column(), 0);
}

#[test]
fn test_println_output() {
    let mut w = Writer::default();
    let s = "Some test string that fits on a single line";
    _print(&mut w, &format!("{}\n", s));
    for (i, c) in s.chars().enumerate() {
        let screen_char = w.char_at(BUFFER_HEIGHT - 2, i);
        assert_eq!(char::from(screen_char.ascii), c);
    }
}

#[test]
fn color_code_packs_background_high() {
    assert_eq!(ColorCode::new(Color::White, Color::Black), ColorCode(0x0f));
    assert_eq!(ColorCode::new(Color::Yellow, Color::Blue), ColorCode(0x1e));
    assert_eq!(ColorCode::new(Color::Black, Color::White), ColorCode(0xf0));
    assert_eq!(ColorCode::new(Color::LtGreen, Color::Red), ColorCode(0x4a));
    assert_eq!(ColorCode::default(), ColorCode(0x0f));
    assert_eq!(Color::Pink.index(), 13);
}

#[test]
fn new_writer_is_blank() {
    let w = Writer::new(ColorCode::new(Color::Green, Color::Black));
    for row in 0..BUFFER_HEIGHT {
        assert!(row_is_blank(&w, row));
    }
    assert_eq!(w.column(), 0);
    assert_eq!(w.color_code(), ColorCode(0x02));
    assert_eq!(ScreenChar::default(), blank());
}

#[test]
fn printable_bytes_read_back_unchanged() {
    let mut w = Writer::default();
    let all: Vec<u8> = (0x20u8..=0x7e).collect();
    let first = String::from_utf8(all[..BUFFER_WIDTH].to_vec()).unwrap();
    w.write_string(&first);
    assert_eq!(row_text(&w, BUFFER_HEIGHT - 1, BUFFER_WIDTH), first.as_bytes());
    assert_eq!(w.column(), BUFFER_WIDTH);
    let mut v = Writer::default();
    v.write_string("ab");
    v.write_string("~ c");
    assert_eq!(row_text(&v, BUFFER_HEIGHT - 1, 5), b"ab~ c");
    assert_eq!(v.char_at(BUFFER_HEIGHT - 1, 5), blank());
    assert_eq!(v.column(), 5);
}

#[test]
fn unprintable_bytes_become_sentinel() {
    let mut w = Writer::default();
    w.write_string("a\tb\rc\u{7f}d\u{1}");
    assert_eq!(
        row_text(&w, BUFFER_HEIGHT - 1, 8),
        vec![b'a', 0xfe, b'b', 0xfe, b'c', 0xfe, b'd', 0xfe]
    );
    let mut v = Writer::default();
    v.write_string("\u{e9}");
    assert_eq!(row_text(&v, BUFFER_HEIGHT - 1, 3), vec![0xfe, 0xfe, b' ']);
    assert_eq!(v.column(), 2);
}

#[test]
fn write_byte_stores_byte_as_given() {
    let mut w = Writer::new(ColorCode::new(Color::Red, Color::Black));
    w.write_byte(0x07);
    w.write_byte(b'x');
    assert_eq!(w.char_at(BUFFER_HEIGHT - 1, 0), ScreenChar { ascii: 0x07, color: ColorCode(0x04) });
    assert_eq!(w.char_at(BUFFER_HEIGHT - 1, 1), ScreenChar { ascii: b'x', color: ColorCode(0x04) });
    w.write_byte(b'\n');
    assert_eq!(w.column(), 0);
    assert_eq!(w.char_at(BUFFER_HEIGHT - 2, 1).ascii, b'x');
    assert!(row_is_blank(&w, BUFFER_HEIGHT - 1));
}

#[test]
fn one_byte_past_a_full_row_scrolls_once() {
    let mut w = Writer::default();
    w.write_string("top\n");
    let text: String = (0..=BUFFER_WIDTH).map(|i| (b'A' + (i % 26) as u8) as char).collect();
    w.write_string(&text);
    assert_eq!(
        row_text(&w, BUFFER_HEIGHT - 2, BUFFER_WIDTH),
        text.as_bytes()[..BUFFER_WIDTH].to_vec()
    );
    assert_eq!(w.char_at(BUFFER_HEIGHT - 1, 0).ascii, text.as_bytes()[BUFFER_WIDTH]);
    assert!((1..BUFFER_WIDTH).all(|c| w.char_at(BUFFER_HEIGHT - 1, c) == blank()));
    assert!(row_shows(&w, BUFFER_HEIGHT - 3, "top"));
    assert_eq!(w.column(), 1);
}

#[test]
fn lines_evict_oldest_first() {
    let mut w = Writer::default();
    for k in 0..2 * BUFFER_HEIGHT {
        w.write_string(&format!("line {}\n", k));
    }
    for row in 0..BUFFER_HEIGHT - 1 {
        let expected = format!("line {}", BUFFER_HEIGHT + 1 + row);
        assert!(row_shows(&w, row, &expected));
    }
    assert!(row_is_blank(&w, BUFFER_HEIGHT - 1));
    assert_eq!(w.column(), 0);
}

#[test]
fn full_row_then_newline_keeps_row() {
    let mut w = Writer::default();
    let text: String = (0..BUFFER_WIDTH).map(|i| (b'0' + (i % 10) as u8) as char).collect();
    w.write_string(&text);
    w.write_string("\n");
    assert_eq!(w.column(), 0);
    assert_eq!(row_text(&w, BUFFER_HEIGHT - 2, BUFFER_WIDTH), text.as_bytes());
    assert!(row_is_blank(&w, BUFFER_HEIGHT - 1));
    assert!(row_is_blank(&w, BUFFER_HEIGHT - 3));
}

#[test]
fn formatted_write_goes_through_string_write() {
    let mut w = Writer::default();
    assert!(w.write_str("x\ty").is_ok());
    assert_eq!(row_text(&w, BUFFER_HEIGHT - 1, 3), vec![b'x', 0xfe, b'y']);
    assert_eq!(w.column(), 3);
}

fn grid(w: &Writer) -> Vec<ScreenChar> {
    let mut cells = Vec::new();
    for row in 0..BUFFER_HEIGHT {
        for col in 0..BUFFER_WIDTH {
            cells.push(w.char_at(row, col));
        }
    }
    cells
}

#[test]
fn two_writes_equal_one_joined_write() {
    let a = "first part\tof a line that is long enough to ";
    let b = "wrap past the end of the row\nand \u{e9}more";
    let mut split = Writer::default();
    assert!(split.write_str(a).is_ok());
    assert!(split.write_str(b).is_ok());
    let mut joined = Writer::default();
    assert!(joined.write_str(&format!("{}{}", a, b)).is_ok());
    assert_eq!(grid(&split), grid(&joined));
    assert_eq!(split.column(), joined.column());
    assert_eq!(joined.column(), 10);
}

#[test]
fn sentinel_after_wrap_lands_at_column_zero() {
    let mut w = Writer::default();
    let full: String = std::iter::repeat('x').take(BUFFER_WIDTH).collect();
    w.write_string(&full);
    w.write_string("\u{1b}");
    assert_eq!(w.column(), 1);
    assert_eq!(w.char_at(BUFFER_HEIGHT - 1, 0).ascii, 0xfe);
    assert_eq!(w.char_at(BUFFER_HEIGHT - 2, BUFFER_WIDTH - 1).ascii, b'x');
}
