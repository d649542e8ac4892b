//! The clock panel: a centred box on a blue screen, drawn with code-page-437
//! box glyphs, holding the date, the time and an ISO-8601 timestamp.

use vstd::prelude::*;
use vstd::string::StringSliceAdditionalSpecFns;
use vstd::string::is_ascii;
use vstd::utf8::valid_utf8;
use vstd::slice::slice_subrange;
use crate::rtc::{
    DateTime,
    day_of_week,
    weekday_full,
    month_full,
    weekday_full_text,
    month_full_text,
    month_index,
    zeller_weekday,
};
use crate::vga_buffer::{
    Color,
    Writer,
    ScreenChar,
    ColorCode,
    BUFFER_WIDTH,
    BUFFER_HEIGHT,
    color_code_of,
    painted,
    screen_size,
    cell_index,
};

verus! {

broadcast use vstd::string::is_ascii_spec_bytes;

/// Top-left corner glyph.
pub const TL: u8 = 0xC9;
/// Top-right corner glyph.
pub const TR: u8 = 0xBB;
/// Bottom-left corner glyph.
pub const BL: u8 = 0xC8;
/// Bottom-right corner glyph.
pub const BR: u8 = 0xBC;
/// Horizontal line glyph.
pub const HZ: u8 = 0xCD;
/// Vertical line glyph.
pub const VT: u8 = 0xBA;
/// Left junction glyph.
pub const LJ: u8 = 0xCC;
/// Right junction glyph.
pub const RJ: u8 = 0xB9;
/// Bullet glyph.
pub const BULLET: u8 = 0x07;

/// Width of the panel.
pub const BOX_W: usize = 50;
/// Height of the panel.
pub const BOX_H: usize = 13;
/// Left column of the panel (centred: 15).
pub const BOX_LEFT: usize = (Writer::WIDTH - BOX_W) / 2;
/// Top row of the panel (centred: 6).
pub const BOX_TOP: usize = (Writer::HEIGHT - BOX_H) / 2;
/// First column inside the border.
pub const INNER_LEFT: usize = BOX_LEFT + 1;
/// Number of columns inside the border.
pub const INNER_WIDTH: usize = BOX_W - 2;
/// Rightmost column of the panel.
pub const BOX_RIGHT: usize = BOX_LEFT + BOX_W - 1;
/// Bottom row of the panel.
pub const BOX_BOTTOM: usize = BOX_TOP + BOX_H - 1;

/// Row of the title.
pub const ROW_TITLE: usize = BOX_TOP + 2;
/// Row of the line under the title.
pub const ROW_DIVIDER: usize = BOX_TOP + 3;
/// Row of the date.
pub const ROW_DATE: usize = BOX_TOP + 5;
/// Row of the time.
pub const ROW_TIME: usize = BOX_TOP + 7;
/// Row of the ISO-8601 timestamp.
pub const ROW_ISO: usize = BOX_TOP + 9;
/// Row of the footer with the heartbeat dot.
pub const ROW_FOOT: usize = BOX_TOP + 11;

/// Background colour of the panel.
pub const BG: Color = Color::Blue;

/// The bytes of an ASCII text.
pub open spec fn ascii_bytes(chars: Seq<char>) -> Seq<u8> {
    Seq::new(chars.len(), |i: int| chars[i] as u8)
}

/// Column at which text of `len` bytes starts when centred inside the
/// border; text as wide as the inside or wider starts at its left edge.
pub open spec fn centred_column(len: int) -> int {
    if len < INNER_WIDTH {
        INNER_LEFT + (INNER_WIDTH - len) / 2
    } else {
        INNER_LEFT as int
    }
}

/// Draw `s` centred inside the border on row `row`, in `fg` on the panel background.
pub fn put_centered(w: &mut Writer, row: usize, s: &str, fg: Color)
    requires
        old(w).wf(),
        s.spec_bytes().len() + INNER_LEFT <= usize::MAX + 1,
    ensures
        final(w).wf(),
        final(w).column() == old(w).column(),
        final(w).code() == old(w).code(),
        final(w).cells() == painted(
            old(w).cells(),
            row as int,
            centred_column(s.spec_bytes().len() as int),
            s.spec_bytes(),
            color_code_of(fg, BG),
        ),
{
    let len = s.len();
    let col = if len < INNER_WIDTH {
        INNER_LEFT + (INNER_WIDTH - len) / 2
    } else {
        INNER_LEFT
    };
    w.put_str_at(row, col, s, fg, BG);
}

/// The cells with the inside of row `row` blanked in white on the panel background.
pub open spec fn inner_row_cleared(cells: Seq<ScreenChar>, row: int) -> Seq<ScreenChar> {
    Seq::new(
        cells.len(),
        |k: int|
            if row < BUFFER_HEIGHT && cell_index(row, INNER_LEFT as int) <= k < cell_index(
                row,
                INNER_LEFT + INNER_WIDTH,
            ) {
                ScreenChar { ascii_character: 0x20, color_code: color_code_of(Color::White, BG) }
            } else {
                cells[k]
            },
    )
}

/// Blank the inside of row `row`, so that shorter new text leaves nothing
/// of the old text behind.
pub fn clear_inner_row(w: &mut Writer, row: usize)
    requires
        old(w).wf(),
    ensures
        final(w).wf(),
        final(w).column() == old(w).column(),
        final(w).code() == old(w).code(),
        final(w).cells() == inner_row_cleared(old(w).cells(), row as int),
{
    let ghost start = w.cells();
    let ghost blank = ScreenChar { ascii_character: 0x20, color_code: color_code_of(Color::White, BG) };
    let mut col: usize = INNER_LEFT;
    while col < INNER_LEFT + INNER_WIDTH
        invariant
            w.wf(),
            INNER_LEFT <= col <= INNER_LEFT + INNER_WIDTH,
            w.column() == old(w).column(),
            w.code() == old(w).code(),
            start == old(w).cells(),
            blank == (ScreenChar { ascii_character: 0x20, color_code: color_code_of(Color::White, BG) }),
            forall|k: int|
                0 <= k < screen_size() ==> #[trigger] w.cells()[k] == if row < BUFFER_HEIGHT
                    && cell_index(row as int, INNER_LEFT as int) <= k < cell_index(
                    row as int,
                    col as int,
                ) {
                    blank
                } else {
                    start[k]
                },
        decreases INNER_LEFT + INNER_WIDTH - col,
    {
        w.put_at(row, col, 0x20, Color::White, BG);
        col = col + 1;
    }
    assert(w.cells() =~= inner_row_cleared(start, row as int));
}

/// The border glyph at (`r`, `c`), if that cell lies on the panel's border.
pub open spec fn box_glyph(r: int, c: int) -> Option<u8> {
    if r == BOX_TOP && c == BOX_LEFT {
        Some(TL)
    } else if r == BOX_TOP && c == BOX_RIGHT {
        Some(TR)
    } else if r == BOX_BOTTOM && c == BOX_LEFT {
        Some(BL)
    } else if r == BOX_BOTTOM && c == BOX_RIGHT {
        Some(BR)
    } else if (r == BOX_TOP || r == BOX_BOTTOM) && BOX_LEFT < c < BOX_RIGHT {
        Some(HZ)
    } else if BOX_TOP < r < BOX_BOTTOM && (c == BOX_LEFT || c == BOX_RIGHT) {
        Some(VT)
    } else {
        None
    }
}

/// The cells with the panel's border drawn in `fg` on the panel background.
pub open spec fn boxed(cells: Seq<ScreenChar>, fg: Color) -> Seq<ScreenChar> {
    Seq::new(
        cells.len(),
        |k: int|
            match box_glyph(k / BUFFER_WIDTH as int, k % BUFFER_WIDTH as int) {
                Some(g) => ScreenChar { ascii_character: g, color_code: color_code_of(fg, BG) },
                None => cells[k],
            },
    )
}

/// Draw the panel's border: corners, horizontal lines along the top and
/// bottom rows, vertical lines down the sides.
pub fn draw_box(w: &mut Writer, fg: Color)
    requires
        old(w).wf(),
    ensures
        final(w).wf(),
        final(w).column() == old(w).column(),
        final(w).code() == old(w).code(),
        final(w).cells() == boxed(old(w).cells(), fg),
{
    let ghost start = w.cells();
    let ghost code = color_code_of(fg, BG);
    let right = BOX_LEFT + BOX_W - 1;
    let bottom = BOX_TOP + BOX_H - 1;

    w.put_at(BOX_TOP, BOX_LEFT, TL, fg, BG);
    w.put_at(BOX_TOP, right, TR, fg, BG);
    w.put_at(bottom, BOX_LEFT, BL, fg, BG);
    w.put_at(bottom, right, BR, fg, BG);

    let mut c: usize = BOX_LEFT + 1;
    while c < right
        invariant
            w.wf(),
            BOX_LEFT + 1 <= c <= BOX_RIGHT,
            right == BOX_RIGHT,
            bottom == BOX_BOTTOM,
            w.column() == old(w).column(),
            w.code() == old(w).code(),
            start == old(w).cells(),
            code == color_code_of(fg, BG),
            forall|k: int|
                0 <= k < screen_size() ==> #[trigger] w.cells()[k] == {
                    let r = k / BUFFER_WIDTH as int;
                    let col = k % BUFFER_WIDTH as int;
                    if (r == BOX_TOP || r == BOX_BOTTOM) && (col == BOX_LEFT || col == BOX_RIGHT
                        || (BOX_LEFT < col < c)) {
                        ScreenChar {
                            ascii_character: box_glyph(r, col).unwrap(),
                            color_code: code,
                        }
                    } else {
                        start[k]
                    }
                },
        decreases BOX_RIGHT - c,
    {
        w.put_at(BOX_TOP, c, HZ, fg, BG);
        w.put_at(bottom, c, HZ, fg, BG);
        c = c + 1;
    }

    let mut r: usize = BOX_TOP + 1;
    while r < bottom
        invariant
            w.wf(),
            BOX_TOP + 1 <= r <= BOX_BOTTOM,
            right == BOX_RIGHT,
            bottom == BOX_BOTTOM,
            w.column() == old(w).column(),
            w.code() == old(w).code(),
            start == old(w).cells(),
            code == color_code_of(fg, BG),
            forall|k: int|
                0 <= k < screen_size() ==> #[trigger] w.cells()[k] == {
                    let row = k / BUFFER_WIDTH as int;
                    let col = k % BUFFER_WIDTH as int;
                    if (row == BOX_TOP || row == BOX_BOTTOM || (BOX_TOP < row < r)) && box_glyph(
                        row,
                        col,
                    ) is Some {
                        ScreenChar {
                            ascii_character: box_glyph(row, col).unwrap(),
                            color_code: code,
                        }
                    } else {
                        start[k]
                    }
                },
        decreases BOX_BOTTOM - r,
    {
        w.put_at(r, BOX_LEFT, VT, fg, BG);
        w.put_at(r, right, VT, fg, BG);
        r = r + 1;
    }
    assert(w.cells() =~= boxed(start, fg));
}

/// The title shown at the top of the panel.
pub open spec fn title_bytes() -> Seq<u8> {
    ascii_bytes("BARE-METAL  RTC  CLOCK"@)
}

/// What the static frame shows at (`r`, `c`): a blue screen, the border
/// and the divider in light cyan, and the title in white.
pub open spec fn frame_cell(r: int, c: int) -> ScreenChar {
    let border = color_code_of(Color::LightCyan, BG);
    let text = color_code_of(Color::White, BG);
    let tc = centred_column(title_bytes().len() as int);
    if r == ROW_DIVIDER && c == BOX_LEFT {
        ScreenChar { ascii_character: LJ, color_code: border }
    } else if r == ROW_DIVIDER && c == BOX_RIGHT {
        ScreenChar { ascii_character: RJ, color_code: border }
    } else if r == ROW_DIVIDER && BOX_LEFT < c < BOX_RIGHT {
        ScreenChar { ascii_character: HZ, color_code: border }
    } else if r == ROW_TITLE && tc <= c < tc + title_bytes().len() {
        ScreenChar { ascii_character: title_bytes()[c - tc], color_code: text }
    } else {
        match box_glyph(r, c) {
            Some(g) => ScreenChar { ascii_character: g, color_code: border },
            None => ScreenChar { ascii_character: 0x20, color_code: text },
        }
    }
}

/// The whole screen as the static frame leaves it.
pub open spec fn frame_screen() -> Seq<ScreenChar> {
    Seq::new(
        screen_size() as nat,
        |k: int| frame_cell(k / BUFFER_WIDTH as int, k % BUFFER_WIDTH as int),
    )
}

/// The cells with the divider under the title drawn in light cyan.
pub open spec fn divided(cells: Seq<ScreenChar>) -> Seq<ScreenChar> {
    Seq::new(
        cells.len(),
        |k: int|
            {
                let r = k / BUFFER_WIDTH as int;
                let c = k % BUFFER_WIDTH as int;
                let border = color_code_of(Color::LightCyan, BG);
                if r == ROW_DIVIDER && c == BOX_LEFT {
                    ScreenChar { ascii_character: LJ, color_code: border }
                } else if r == ROW_DIVIDER && c == BOX_RIGHT {
                    ScreenChar { ascii_character: RJ, color_code: border }
                } else if r == ROW_DIVIDER && BOX_LEFT < c < BOX_RIGHT {
                    ScreenChar { ascii_character: HZ, color_code: border }
                } else {
                    cells[k]
                }
            },
    )
}

/// Draw the parts of the panel that never change: the blue background, the
/// border, the divider and the title.
pub fn draw_frame(w: &mut Writer)
    requires
        old(w).wf(),
    ensures
        final(w).wf(),
        final(w).column() == old(w).column(),
        final(w).code() == old(w).code(),
        final(w).cells() == frame_screen(),
{
    w.fill(0x20, Color::White, BG);
    draw_box(w, Color::LightCyan);
    let ghost after_box = w.cells();

    let right = BOX_LEFT + BOX_W - 1;
    w.put_at(ROW_DIVIDER, BOX_LEFT, LJ, Color::LightCyan, BG);
    w.put_at(ROW_DIVIDER, right, RJ, Color::LightCyan, BG);
    let mut c: usize = BOX_LEFT + 1;
    while c < right
        invariant
            w.wf(),
            BOX_LEFT + 1 <= c <= BOX_RIGHT,
            right == BOX_RIGHT,
            w.column() == old(w).column(),
            w.code() == old(w).code(),
            after_box.len() == screen_size(),
            forall|k: int|
                0 <= k < screen_size() ==> #[trigger] w.cells()[k] == {
                    let r = k / BUFFER_WIDTH as int;
                    let col = k % BUFFER_WIDTH as int;
                    if r == ROW_DIVIDER && (col == BOX_LEFT || col == BOX_RIGHT || BOX_LEFT < col
                        < c) {
                        divided(after_box)[k]
                    } else {
                        after_box[k]
                    }
                },
        decreases BOX_RIGHT - c,
    {
        w.put_at(ROW_DIVIDER, c, HZ, Color::LightCyan, BG);
        c = c + 1;
    }
    assert(w.cells() =~= divided(after_box));

    let title = "BARE-METAL  RTC  CLOCK";
    proof {
        reveal_strlit("BARE-METAL  RTC  CLOCK");
        assert(is_ascii(title));
        assert(title.spec_bytes() =~= title_bytes());
    }
    put_centered(w, ROW_TITLE, title, Color::White);
    assert(w.cells() =~= frame_screen());
}

/// Capacity of a formatting buffer.
pub const FMT_CAPACITY: usize = 80;

/// `contents` followed by `bytes`, cut off at the buffer's capacity.
pub open spec fn appended(contents: Seq<u8>, bytes: Seq<u8>) -> Seq<u8> {
    let all = contents + bytes;
    if all.len() <= FMT_CAPACITY {
        all
    } else {
        all.take(FMT_CAPACITY as int)
    }
}

/// Appending in two steps leaves what appending in one step leaves.
pub proof fn law_appended_in_steps(contents: Seq<u8>, a: Seq<u8>, b: Seq<u8>)
    requires
        contents.len() <= FMT_CAPACITY,
    ensures
        appended(appended(contents, a), b) == appended(contents, a + b),
{
    assert(contents + (a + b) =~= (contents + a) + b);
    if (contents + a).len() <= FMT_CAPACITY {
    } else {
        assert(appended(appended(contents, a), b) =~= appended(contents, a + b));
    }
}

/// `core::str::from_utf8`: the bytes read as text. As its documentation
/// states, it gives the text exactly when the bytes are valid UTF-8, and the
/// text then consists of those bytes.
#[verifier::external_body]
fn str_from_utf8(bytes: &[u8]) -> (r: Option<&str>)
    ensures
        r is Some <==> valid_utf8(bytes@),
        r matches Some(s) ==> s.spec_bytes() == bytes@,
{
    core::str::from_utf8(bytes).ok()
}

/// A fixed 80-byte text buffer for formatting without a heap. Writes past
/// its capacity are dropped.
pub struct FmtBuf {
    buf: [u8; 80],
    len: usize,
}

impl FmtBuf {
    /// The bytes written so far.
    pub closed spec fn contents(&self) -> Seq<u8> {
        self.buf@.take(self.len as int)
    }

    /// All 80 bytes of storage, written or not.
    pub closed spec fn storage(&self) -> Seq<u8> {
        self.buf@
    }

    /// The length stays within the buffer.
    pub closed spec fn wf(&self) -> bool {
        self.len <= FMT_CAPACITY
    }

    /// An empty buffer whose storage is all zero bytes.
    pub fn new() -> (b: FmtBuf)
        ensures
            b.wf(),
            b.contents() == Seq::<u8>::empty(),
            b.storage() == Seq::new(FMT_CAPACITY as nat, |i: int| 0u8),
    {
        let b = FmtBuf { buf: [0; 80], len: 0 };
        assert(b.contents() =~= Seq::<u8>::empty());
        assert(b.storage() =~= Seq::new(FMT_CAPACITY as nat, |i: int| 0u8));
        b
    }

    /// The bytes written so far as text, or the empty text when they are not
    /// valid UTF-8 (a multi-byte character cut off at the capacity).
    pub fn as_str(&self) -> (s: &str)
        requires
            self.wf(),
        ensures
            valid_utf8(self.contents()) ==> s.spec_bytes() == self.contents(),
            !valid_utf8(self.contents()) ==> s@ == Seq::<char>::empty(),
    {
        let bytes = slice_subrange(self.buf.as_slice(), 0, self.len);
        match str_from_utf8(bytes) {
            Some(s) => s,
            None => {
                proof {
                    reveal_strlit("");
                }
                ""
            },
        }
    }

    /// Append `bytes`, dropping whatever does not fit.
    pub fn push_bytes(&mut self, bytes: &[u8])
        requires
            old(self).wf(),
        ensures
            final(self).wf(),
            final(self).contents() == appended(old(self).contents(), bytes@),
    {
        let ghost start = self.contents();
        let mut i: usize = 0;
        while i < bytes.len()
            invariant
                self.wf(),
                i <= bytes@.len(),
                start.len() <= FMT_CAPACITY,
                self.contents() == appended(start, bytes@.take(i as int)),
            decreases bytes@.len() - i,
        {
            let ghost before = self.contents();
            if self.len < FMT_CAPACITY {
                self.buf[self.len] = bytes[i];
                self.len = self.len + 1;
            }
            proof {
                assert(bytes@.take(i + 1) =~= bytes@.take(i as int) + seq![bytes@[i as int]]);
                law_appended_in_steps(start, bytes@.take(i as int), seq![bytes@[i as int]]);
                assert(self.contents() =~= appended(before, seq![bytes@[i as int]]));
            }
            i = i + 1;
        }
        assert(bytes@.take(bytes@.len() as int) =~= bytes@);
    }

    /// Append the bytes of `s`, dropping whatever does not fit.
    pub fn write_str(&mut self, s: &str)
        requires
            old(self).wf(),
        ensures
            final(self).wf(),
            final(self).contents() == appended(old(self).contents(), s.spec_bytes()),
    {
        self.push_bytes(s.as_bytes());
    }
}

/// The decimal digits of `n`, most significant first, without leading zeros.
pub open spec fn decimal(n: nat) -> Seq<u8>
    decreases n,
{
    if n < 10 {
        seq![(48 + n) as u8]
    } else {
        decimal(n / 10).push((48 + n % 10) as u8)
    }
}

/// `n` in decimal, padded with a leading zero to at least two digits.
pub open spec fn two_digits(n: nat) -> Seq<u8> {
    if n < 10 {
        seq![48u8] + decimal(n)
    } else {
        decimal(n)
    }
}

impl FmtBuf {
    /// Append one byte, unless the buffer is full.
    pub fn push_byte(&mut self, b: u8)
        requires
            old(self).wf(),
        ensures
            final(self).wf(),
            final(self).contents() == appended(old(self).contents(), seq![b]),
    {
        if self.len < FMT_CAPACITY {
            self.buf[self.len] = b;
            self.len = self.len + 1;
        }
        assert(self.contents() =~= appended(old(self).contents(), seq![b]));
    }

    /// Append `n` in decimal.
    pub fn write_decimal(&mut self, n: u16)
        requires
            old(self).wf(),
        ensures
            final(self).wf(),
            final(self).contents() == appended(old(self).contents(), decimal(n as nat)),
        decreases n,
    {
        if n >= 10 {
            self.write_decimal(n / 10);
            self.push_byte(48 + (n % 10) as u8);
            proof {
                law_appended_in_steps(old(self).contents(), decimal((n / 10) as nat), seq![(48 + n % 10) as u8]);
                assert(decimal((n / 10) as nat) + seq![(48 + n % 10) as u8] =~= decimal(n as nat));
            }
        } else {
            self.push_byte(48 + n as u8);
        }
    }

    /// Append `n` in decimal, padded with a leading zero to two digits.
    pub fn write_two_digits(&mut self, n: u8)
        requires
            old(self).wf(),
        ensures
            final(self).wf(),
            final(self).contents() == appended(old(self).contents(), two_digits(n as nat)),
    {
        if n < 10 {
            self.push_byte(48);
            self.write_decimal(n as u16);
            proof {
                law_appended_in_steps(old(self).contents(), seq![48u8], decimal(n as nat));
            }
        } else {
            self.write_decimal(n as u16);
        }
    }
}

/// Numbers below 100000 have at most five decimal digits, all of them ASCII digits.
proof fn lemma_decimal_shape(n: nat)
    ensures
        decimal(n).len() >= 1,
        n < 10 ==> decimal(n).len() == 1,
        10 <= n < 100 ==> decimal(n).len() == 2,
        100 <= n < 1000 ==> decimal(n).len() == 3,
        1000 <= n < 10000 ==> decimal(n).len() == 4,
        10000 <= n < 100000 ==> decimal(n).len() == 5,
        n < 100 ==> decimal(n).len() <= 2,
        n < 1000 ==> decimal(n).len() <= 3,
        n < 10000 ==> decimal(n).len() <= 4,
        n < 100000 ==> decimal(n).len() <= 5,
        forall|i: int| 0 <= i < decimal(n).len() ==> 48 <= #[trigger] decimal(n)[i] <= 57,
    decreases n,
{
    if n >= 10 {
        lemma_decimal_shape(n / 10);
        assert forall|i: int| 0 <= i < decimal(n).len() implies 48 <= #[trigger] decimal(n)[i]
            <= 57 by {
            if i < decimal(n).len() - 1 {
                assert(decimal(n)[i] == decimal(n / 10)[i]);
            }
        }
    }
}

/// The date line, e.g. "Friday, 19 June 2026".
pub open spec fn date_text(dt: DateTime) -> Seq<u8> {
    ascii_bytes(weekday_full_text(zeller_weekday(dt))) + seq![44u8, 32u8] + decimal(dt.day as nat)
        + seq![32u8] + ascii_bytes(month_full_text(month_index(dt.month))) + seq![32u8] + decimal(
        dt.year as nat,
    )
}

/// The time line, e.g. "15 : 49 : 21".
pub open spec fn time_text(dt: DateTime) -> Seq<u8> {
    two_digits(dt.hour as nat) + seq![32u8, 58u8, 32u8] + two_digits(dt.minute as nat) + seq![
        32u8,
        58u8,
        32u8,
    ] + two_digits(dt.second as nat)
}

/// The ISO-8601 timestamp, e.g. "2026-06-19T15:49:21".
pub open spec fn iso_text(dt: DateTime) -> Seq<u8> {
    decimal(dt.year as nat) + seq![45u8] + two_digits(dt.month as nat) + seq![45u8] + two_digits(
        dt.day as nat,
    ) + seq![84u8] + two_digits(dt.hour as nat) + seq![58u8] + two_digits(dt.minute as nat)
        + seq![58u8] + two_digits(dt.second as nat)
}

/// The weekday and month names are ASCII and at most nine letters long.
proof fn lemma_names(i: int)
    ensures
        weekday_full_text(i).len() <= 9,
        month_full_text(i).len() <= 9,
        vstd::utf8::is_ascii_chars(weekday_full_text(i)),
        vstd::utf8::is_ascii_chars(month_full_text(i)),
{
    reveal_strlit("Sunday");
    reveal_strlit("Monday");
    reveal_strlit("Tuesday");
    reveal_strlit("Wednesday");
    reveal_strlit("Thursday");
    reveal_strlit("Friday");
    reveal_strlit("Saturday");
    reveal_strlit("January");
    reveal_strlit("February");
    reveal_strlit("March");
    reveal_strlit("April");
    reveal_strlit("May");
    reveal_strlit("June");
    reveal_strlit("July");
    reveal_strlit("August");
    reveal_strlit("September");
    reveal_strlit("October");
    reveal_strlit("November");
    reveal_strlit("December");
}

/// A buffer that holds `text`, when `text` fits.
proof fn lemma_fits(text: Seq<u8>)
    requires
        text.len() <= FMT_CAPACITY,
    ensures
        appended(Seq::<u8>::empty(), text) == text,
{
    assert(Seq::<u8>::empty() + text =~= text);
}

/// Format the date line of `dt`.
pub fn format_date(dt: &DateTime) -> (b: FmtBuf)
    ensures
        b.wf(),
        b.contents() == date_text(*dt),
{
    let weekday = weekday_full(day_of_week(dt));
    let month = month_full(dt.month);
    let mut b = FmtBuf::new();
    let ghost e = Seq::<u8>::empty();
    let ghost wd = ascii_bytes(weekday_full_text(zeller_weekday(*dt)));
    let ghost mo = ascii_bytes(month_full_text(month_index(dt.month)));
    proof {
        assert(weekday.spec_bytes() =~= wd);
        assert(month.spec_bytes() =~= mo);
    }
    b.write_str(weekday);
    b.push_byte(44);
    proof { law_appended_in_steps(e, wd, seq![44u8]); }
    b.push_byte(32);
    proof { law_appended_in_steps(e, wd + seq![44u8], seq![32u8]); }
    b.write_decimal(dt.day as u16);
    proof { law_appended_in_steps(e, wd + seq![44u8] + seq![32u8], decimal(dt.day as nat)); }
    b.push_byte(32);
    proof { law_appended_in_steps(e, wd + seq![44u8] + seq![32u8] + decimal(dt.day as nat), seq![32u8]); }
    b.write_str(month);
    proof { law_appended_in_steps(e, wd + seq![44u8] + seq![32u8] + decimal(dt.day as nat) + seq![32u8], mo); }
    b.push_byte(32);
    proof { law_appended_in_steps(e, wd + seq![44u8] + seq![32u8] + decimal(dt.day as nat) + seq![32u8] + mo, seq![32u8]); }
    b.write_decimal(dt.year);
    proof {
        let whole = wd + seq![44u8] + seq![32u8] + decimal(dt.day as nat) + seq![32u8] + mo + seq![32u8];
        law_appended_in_steps(e, whole, decimal(dt.year as nat));
        lemma_names(zeller_weekday(*dt));
        lemma_names(month_index(dt.month));
        lemma_decimal_shape(dt.day as nat);
        lemma_decimal_shape(dt.year as nat);
        assert(whole + decimal(dt.year as nat) =~= date_text(*dt));
        lemma_fits(date_text(*dt));
    }
    b
}

/// Format the time line of `dt`.
pub fn format_time(dt: &DateTime) -> (b: FmtBuf)
    ensures
        b.wf(),
        b.contents() == time_text(*dt),
{
    let mut b = FmtBuf::new();
    let ghost e = Seq::<u8>::empty();
    let ghost h = two_digits(dt.hour as nat);
    let ghost m = two_digits(dt.minute as nat);
    let ghost sec = two_digits(dt.second as nat);
    let ghost sep = seq![32u8, 58u8, 32u8];
    b.write_two_digits(dt.hour);
    b.push_byte(32);
    b.push_byte(58);
    b.push_byte(32);
    proof {
        law_appended_in_steps(e, h, seq![32u8]);
        law_appended_in_steps(e, h + seq![32u8], seq![58u8]);
        law_appended_in_steps(e, h + seq![32u8] + seq![58u8], seq![32u8]);
        assert(h + seq![32u8] + seq![58u8] + seq![32u8] =~= h + sep);
    }
    b.write_two_digits(dt.minute);
    b.push_byte(32);
    b.push_byte(58);
    b.push_byte(32);
    proof {
        law_appended_in_steps(e, h + sep, m);
        law_appended_in_steps(e, h + sep + m, seq![32u8]);
        law_appended_in_steps(e, h + sep + m + seq![32u8], seq![58u8]);
        law_appended_in_steps(e, h + sep + m + seq![32u8] + seq![58u8], seq![32u8]);
        assert(h + sep + m + seq![32u8] + seq![58u8] + seq![32u8] =~= h + sep + m + sep);
    }
    b.write_two_digits(dt.second);
    proof {
        law_appended_in_steps(e, h + sep + m + sep, sec);
        lemma_decimal_shape(dt.hour as nat);
        lemma_decimal_shape(dt.minute as nat);
        lemma_decimal_shape(dt.second as nat);
        assert(h + sep + m + sep + sec =~= time_text(*dt));
        lemma_fits(time_text(*dt));
    }
    b
}

/// Format the ISO-8601 timestamp of `dt`, e.g. "2026-06-19T15:49:21".
pub fn format_iso(dt: &DateTime) -> (b: FmtBuf)
    ensures
        b.wf(),
        b.contents() == iso_text(*dt),
{
    let mut b = FmtBuf::new();
    let ghost e = Seq::<u8>::empty();
    let ghost y = decimal(dt.year as nat);
    let ghost mo = two_digits(dt.month as nat);
    let ghost d = two_digits(dt.day as nat);
    let ghost h = two_digits(dt.hour as nat);
    let ghost mi = two_digits(dt.minute as nat);
    let ghost sec = two_digits(dt.second as nat);
    b.write_decimal(dt.year);
    b.push_byte(45);
    proof {
        law_appended_in_steps(e, y, seq![45u8]);
    }
    b.write_two_digits(dt.month);
    b.push_byte(45);
    proof {
        law_appended_in_steps(e, y + seq![45u8], mo);
        law_appended_in_steps(e, y + seq![45u8] + mo, seq![45u8]);
    }
    b.write_two_digits(dt.day);
    b.push_byte(84);
    proof {
        law_appended_in_steps(e, y + seq![45u8] + mo + seq![45u8], d);
        law_appended_in_steps(e, y + seq![45u8] + mo + seq![45u8] + d, seq![84u8]);
    }
    let ghost p1 = y + seq![45u8] + mo + seq![45u8] + d + seq![84u8];
    b.write_two_digits(dt.hour);
    b.push_byte(58);
    proof {
        law_appended_in_steps(e, p1, h);
        law_appended_in_steps(e, p1 + h, seq![58u8]);
    }
    b.write_two_digits(dt.minute);
    b.push_byte(58);
    proof {
        law_appended_in_steps(e, p1 + h + seq![58u8], mi);
        law_appended_in_steps(e, p1 + h + seq![58u8] + mi, seq![58u8]);
    }
    b.write_two_digits(dt.second);
    proof {
        law_appended_in_steps(e, p1 + h + seq![58u8] + mi + seq![58u8], sec);
        lemma_decimal_shape(dt.year as nat);
        lemma_decimal_shape(dt.month as nat);
        lemma_decimal_shape(dt.day as nat);
        lemma_decimal_shape(dt.hour as nat);
        lemma_decimal_shape(dt.minute as nat);
        lemma_decimal_shape(dt.second as nat);
        assert(p1 + h + seq![58u8] + mi + seq![58u8] + sec =~= iso_text(*dt));
        lemma_fits(iso_text(*dt));
    }
    b
}

/// Every byte is ASCII (below 0x80).
pub open spec fn ascii_only(bytes: Seq<u8>) -> bool {
    forall|i: int| 0 <= i < bytes.len() ==> #[trigger] bytes[i] < 0x80
}

/// ASCII bytes are valid UTF-8.
proof fn lemma_ascii_is_utf8(bytes: Seq<u8>)
    requires
        ascii_only(bytes),
    ensures
        valid_utf8(bytes),
{
    assert(vstd::utf8::partial_valid_utf8(bytes, 0)) by {
        assert(bytes.subrange(0, 0) =~= Seq::<u8>::empty());
    }
    vstd::utf8::partial_valid_utf8_extend_ascii_block(bytes, 0, bytes.len() as int);
    assert(bytes.subrange(0, bytes.len() as int) =~= bytes);
}

proof fn lemma_ascii_names(chars: Seq<char>)
    requires
        vstd::utf8::is_ascii_chars(chars),
    ensures
        ascii_only(ascii_bytes(chars)),
{
    assert forall|i: int| 0 <= i < chars.len() implies #[trigger] ascii_bytes(chars)[i] < 0x80 by {
        assert('\0' <= chars[i] <= '\u{7f}');
    }
}

proof fn lemma_ascii_concat(a: Seq<u8>, b: Seq<u8>)
    requires
        ascii_only(a),
        ascii_only(b),
    ensures
        ascii_only(a + b),
{
    assert forall|i: int| 0 <= i < (a + b).len() implies #[trigger] (a + b)[i] < 0x80 by {
        if i < a.len() {
            assert((a + b)[i] == a[i]);
        } else {
            assert((a + b)[i] == b[i - a.len()]);
        }
    }
}

proof fn lemma_digits(n: nat)
    ensures
        ascii_only(decimal(n)),
        ascii_only(two_digits(n)),
        n < 100000 ==> decimal(n).len() <= 5,
        n < 1000 ==> two_digits(n).len() <= 3,
{
    lemma_decimal_shape(n);
    assert(ascii_only(seq![48u8]));
    if n < 10 {
        lemma_ascii_concat(seq![48u8], decimal(n));
    }
}

/// The date line is ASCII and at most 30 bytes long.
proof fn lemma_date_text(dt: DateTime)
    ensures
        ascii_only(date_text(dt)),
        date_text(dt).len() <= 30,
{
    let wd = ascii_bytes(weekday_full_text(zeller_weekday(dt)));
    let mo = ascii_bytes(month_full_text(month_index(dt.month)));
    lemma_names(zeller_weekday(dt));
    lemma_names(month_index(dt.month));
    lemma_ascii_names(weekday_full_text(zeller_weekday(dt)));
    lemma_ascii_names(month_full_text(month_index(dt.month)));
    lemma_digits(dt.day as nat);
    lemma_digits(dt.year as nat);
    assert(ascii_only(seq![44u8, 32u8]));
    assert(ascii_only(seq![32u8]));
    lemma_ascii_concat(wd, seq![44u8, 32u8]);
    lemma_ascii_concat(wd + seq![44u8, 32u8], decimal(dt.day as nat));
    lemma_ascii_concat(wd + seq![44u8, 32u8] + decimal(dt.day as nat), seq![32u8]);
    lemma_ascii_concat(wd + seq![44u8, 32u8] + decimal(dt.day as nat) + seq![32u8], mo);
    lemma_ascii_concat(wd + seq![44u8, 32u8] + decimal(dt.day as nat) + seq![32u8] + mo, seq![32u8]);
    lemma_ascii_concat(
        wd + seq![44u8, 32u8] + decimal(dt.day as nat) + seq![32u8] + mo + seq![32u8],
        decimal(dt.year as nat),
    );
}

/// The time line is ASCII and at most 30 bytes long.
proof fn lemma_time_text(dt: DateTime)
    ensures
        ascii_only(time_text(dt)),
        time_text(dt).len() <= 30,
{
    let sep = seq![32u8, 58u8, 32u8];
    let h = two_digits(dt.hour as nat);
    let m = two_digits(dt.minute as nat);
    lemma_digits(dt.hour as nat);
    lemma_digits(dt.minute as nat);
    lemma_digits(dt.second as nat);
    assert(ascii_only(sep));
    lemma_ascii_concat(h, sep);
    lemma_ascii_concat(h + sep, m);
    lemma_ascii_concat(h + sep + m, sep);
    lemma_ascii_concat(h + sep + m + sep, two_digits(dt.second as nat));
}

/// The ISO-8601 line is ASCII and at most 30 bytes long.
proof fn lemma_iso_text(dt: DateTime)
    ensures
        ascii_only(iso_text(dt)),
        iso_text(dt).len() <= 30,
{
    let y = decimal(dt.year as nat);
    let mo = two_digits(dt.month as nat);
    let d = two_digits(dt.day as nat);
    let h = two_digits(dt.hour as nat);
    let mi = two_digits(dt.minute as nat);
    lemma_digits(dt.year as nat);
    lemma_digits(dt.month as nat);
    lemma_digits(dt.day as nat);
    lemma_digits(dt.hour as nat);
    lemma_digits(dt.minute as nat);
    lemma_digits(dt.second as nat);
    assert(ascii_only(seq![45u8]));
    assert(ascii_only(seq![84u8]));
    assert(ascii_only(seq![58u8]));
    lemma_ascii_concat(y, seq![45u8]);
    lemma_ascii_concat(y + seq![45u8], mo);
    lemma_ascii_concat(y + seq![45u8] + mo, seq![45u8]);
    lemma_ascii_concat(y + seq![45u8] + mo + seq![45u8], d);
    lemma_ascii_concat(y + seq![45u8] + mo + seq![45u8] + d, seq![84u8]);
    let p = y + seq![45u8] + mo + seq![45u8] + d + seq![84u8];
    lemma_ascii_concat(p, h);
    lemma_ascii_concat(p + h, seq![58u8]);
    lemma_ascii_concat(p + h + seq![58u8], mi);
    lemma_ascii_concat(p + h + seq![58u8] + mi, seq![58u8]);
    lemma_ascii_concat(p + h + seq![58u8] + mi + seq![58u8], two_digits(dt.second as nat));
}

/// The footer text; a heartbeat dot follows it.
pub open spec fn footer_bytes() -> Seq<u8> {
    ascii_bytes("live  reading CMOS RTC @ 0x70/0x71 "@)
}

/// Column where the footer starts: the footer and its dot are centred.
pub open spec fn footer_column() -> int {
    INNER_LEFT + (INNER_WIDTH - (footer_bytes().len() + 1)) / 2
}

/// Text `t` centred inside the border, in `fg`, as seen at column `c`.
pub open spec fn centred_text_cell(t: Seq<u8>, fg: Color, c: int) -> Option<ScreenChar> {
    let s = centred_column(t.len() as int);
    if s <= c < s + t.len() {
        Some(ScreenChar { ascii_character: t[c - s], color_code: color_code_of(fg, BG) })
    } else {
        None
    }
}

/// What cell `k` shows after the changing parts of the panel are drawn for
/// `dt` over `cells`: the date line (its row cleared first) in yellow, the
/// time in light green, the ISO timestamp in light gray, and the footer
/// (its row cleared first) with a dot that is light green when `blink` is
/// set and invisible otherwise. Every other cell keeps its content.
pub open spec fn panel_cell(cells: Seq<ScreenChar>, dt: DateTime, blink: bool, k: int) -> ScreenChar {
    let r = k / BUFFER_WIDTH as int;
    let c = k % BUFFER_WIDTH as int;
    let inner = INNER_LEFT <= c < INNER_LEFT + INNER_WIDTH;
    let blank = ScreenChar { ascii_character: 0x20, color_code: color_code_of(Color::White, BG) };
    if r == ROW_DATE {
        match centred_text_cell(date_text(dt), Color::Yellow, c) {
            Some(x) => x,
            None => if inner {
                blank
            } else {
                cells[k]
            },
        }
    } else if r == ROW_TIME {
        match centred_text_cell(time_text(dt), Color::LightGreen, c) {
            Some(x) => x,
            None => cells[k],
        }
    } else if r == ROW_ISO {
        match centred_text_cell(iso_text(dt), Color::LightGray, c) {
            Some(x) => x,
            None => cells[k],
        }
    } else if r == ROW_FOOT {
        let s = footer_column();
        let l = footer_bytes();
        if s <= c < s + l.len() {
            ScreenChar { ascii_character: l[c - s], color_code: color_code_of(Color::LightGray, BG) }
        } else if c == s + l.len() {
            ScreenChar {
                ascii_character: BULLET,
                color_code: color_code_of(
                    if blink {
                        Color::LightGreen
                    } else {
                        BG
                    },
                    BG,
                ),
            }
        } else if inner {
            blank
        } else {
            cells[k]
        }
    } else {
        cells[k]
    }
}

/// The whole screen after the changing parts of the panel are drawn.
pub open spec fn panel_screen(cells: Seq<ScreenChar>, dt: DateTime, blink: bool) -> Seq<ScreenChar> {
    Seq::new(cells.len(), |k: int| panel_cell(cells, dt, blink, k))
}

/// Draw `t` centred on `row`; the result in terms of the cells.
proof fn lemma_centred_paint(cells: Seq<ScreenChar>, row: int, t: Seq<u8>, fg: Color, k: int)
    requires
        0 <= k < cells.len(),
        t.len() <= 30,
        0 <= row < BUFFER_HEIGHT,
    ensures
        painted(cells, row, centred_column(t.len() as int), t, color_code_of(fg, BG))[k] == if k
            / BUFFER_WIDTH as int == row && centred_text_cell(t, fg, k % BUFFER_WIDTH as int) is Some {
            centred_text_cell(t, fg, k % BUFFER_WIDTH as int).unwrap()
        } else {
            cells[k]
        },
{
}

/// The cells after each drawing step of `draw_dynamic` add up to `panel_screen`.
#[verifier::spinoff_prover]
proof fn lemma_panel_cells(
    start: Seq<ScreenChar>,
    c1: Seq<ScreenChar>,
    c2: Seq<ScreenChar>,
    c3: Seq<ScreenChar>,
    c4: Seq<ScreenChar>,
    c5: Seq<ScreenChar>,
    c6: Seq<ScreenChar>,
    fin: Seq<ScreenChar>,
    dt: DateTime,
    blink: bool,
)
    requires
        start.len() == screen_size(),
        date_text(dt).len() <= 30,
        time_text(dt).len() <= 30,
        iso_text(dt).len() <= 30,
        footer_bytes().len() == 35,
        c1 == inner_row_cleared(start, ROW_DATE as int),
        c2 == painted(
            c1,
            ROW_DATE as int,
            centred_column(date_text(dt).len() as int),
            date_text(dt),
            color_code_of(Color::Yellow, BG),
        ),
        c3 == painted(
            c2,
            ROW_TIME as int,
            centred_column(time_text(dt).len() as int),
            time_text(dt),
            color_code_of(Color::LightGreen, BG),
        ),
        c4 == painted(
            c3,
            ROW_ISO as int,
            centred_column(iso_text(dt).len() as int),
            iso_text(dt),
            color_code_of(Color::LightGray, BG),
        ),
        c5 == inner_row_cleared(c4, ROW_FOOT as int),
        c6 == painted(
            c5,
            ROW_FOOT as int,
            footer_column(),
            footer_bytes(),
            color_code_of(Color::LightGray, BG),
        ),
        fin == c6.update(
            cell_index(ROW_FOOT as int, footer_column() + 35),
            ScreenChar {
                ascii_character: BULLET,
                color_code: color_code_of(
                    if blink {
                        Color::LightGreen
                    } else {
                        BG
                    },
                    BG,
                ),
            },
        ),
    ensures
        fin == panel_screen(start, dt, blink),
{
    assert forall|k: int| 0 <= k < screen_size() implies #[trigger] fin[k] == panel_cell(
        start,
        dt,
        blink,
        k,
    ) by {
        lemma_centred_paint(c1, ROW_DATE as int, date_text(dt), Color::Yellow, k);
        lemma_centred_paint(c2, ROW_TIME as int, time_text(dt), Color::LightGreen, k);
        lemma_centred_paint(c3, ROW_ISO as int, iso_text(dt), Color::LightGray, k);
    }
    assert(fin =~= panel_screen(start, dt, blink));
}

/// Redraw the parts of the panel that change every second: date, time,
/// ISO timestamp and the heartbeat dot, which is visible when `blink` is set.
pub fn draw_dynamic(w: &mut Writer, dt: &DateTime, blink: bool)
    requires
        old(w).wf(),
    ensures
        final(w).wf(),
        final(w).column() == old(w).column(),
        final(w).code() == old(w).code(),
        final(w).cells() == panel_screen(old(w).cells(), *dt, blink),
{
    let ghost start = w.cells();
    proof {
        lemma_date_text(*dt);
        lemma_time_text(*dt);
        lemma_iso_text(*dt);
        lemma_ascii_is_utf8(date_text(*dt));
        lemma_ascii_is_utf8(time_text(*dt));
        lemma_ascii_is_utf8(iso_text(*dt));
    }

    clear_inner_row(w, ROW_DATE);
    let ghost c1 = w.cells();
    let date = format_date(dt);
    put_centered(w, ROW_DATE, date.as_str(), Color::Yellow);
    let ghost c2 = w.cells();

    let time = format_time(dt);
    put_centered(w, ROW_TIME, time.as_str(), Color::LightGreen);
    let ghost c3 = w.cells();

    let iso = format_iso(dt);
    put_centered(w, ROW_ISO, iso.as_str(), Color::LightGray);
    let ghost c4 = w.cells();

    clear_inner_row(w, ROW_FOOT);
    let ghost c5 = w.cells();

    let label = "live  reading CMOS RTC @ 0x70/0x71 ";
    proof {
        reveal_strlit("live  reading CMOS RTC @ 0x70/0x71 ");
        assert(is_ascii(label));
        assert(label.spec_bytes() =~= footer_bytes());
    }
    let col = INNER_LEFT + (INNER_WIDTH - (label.len() + 1)) / 2;
    assert(col == footer_column());
    w.put_str_at(ROW_FOOT, col, label, Color::LightGray, BG);
    let ghost c6 = w.cells();
    let dot_color = if blink {
        Color::LightGreen
    } else {
        BG
    };
    w.put_at(ROW_FOOT, col + label.len(), BULLET, dot_color, BG);

    proof {
        lemma_panel_cells(start, c1, c2, c3, c4, c5, c6, w.cells(), *dt, blink);
    }
}

/// The time line always has the same width while hours, minutes and
/// seconds are below 100, so redrawing it never leaves old characters behind.
pub proof fn law_time_line_is_fixed_width(dt: DateTime)
    requires
        dt.hour < 100,
        dt.minute < 100,
        dt.second < 100,
    ensures
        time_text(dt).len() == 12,
{
    lemma_decimal_shape(dt.hour as nat);
    lemma_decimal_shape(dt.minute as nat);
    lemma_decimal_shape(dt.second as nat);
}

/// With a four-digit year and fields below 100 the ISO-8601 timestamp is
/// always 19 bytes: "YYYY-MM-DDTHH:MM:SS".
pub proof fn law_iso_line_is_fixed_width(dt: DateTime)
    requires
        1000 <= dt.year <= 9999,
        dt.month < 100,
        dt.day < 100,
        dt.hour < 100,
        dt.minute < 100,
        dt.second < 100,
    ensures
        iso_text(dt).len() == 19,
{
    lemma_decimal_shape(dt.month as nat);
    lemma_decimal_shape(dt.day as nat);
    lemma_decimal_shape(dt.hour as nat);
    lemma_decimal_shape(dt.minute as nat);
    lemma_decimal_shape(dt.second as nat);
    lemma_decimal_shape(dt.year as nat);
}

/// Centring inside the border: text shorter than the inside (48 columns)
/// lies within columns 16..64, with as many blank columns on the right as on
/// the left, or one more; wider text starts at the inside's left edge.
pub proof fn law_centred_text_is_centred(len: int)
    requires
        0 <= len,
    ensures
        len < INNER_WIDTH ==> {
            let col = centred_column(len);
            let left = col - INNER_LEFT;
            let right = (INNER_LEFT + INNER_WIDTH) - (col + len);
            &&& INNER_LEFT <= col
            &&& col + len <= INNER_LEFT + INNER_WIDTH
            &&& (right == left || right == left + 1)
        },
        len >= INNER_WIDTH ==> centred_column(len) == INNER_LEFT,
{
}

/// English name of month `m` of the calendar (1 = January .. 12 = December).
pub open spec fn calendar_month_name(m: int) -> Seq<char> {
    if m == 1 {
        "January"@
    } else if m == 2 {
        "February"@
    } else if m == 3 {
        "March"@
    } else if m == 4 {
        "April"@
    } else if m == 5 {
        "May"@
    } else if m == 6 {
        "June"@
    } else if m == 7 {
        "July"@
    } else if m == 8 {
        "August"@
    } else if m == 9 {
        "September"@
    } else if m == 10 {
        "October"@
    } else if m == 11 {
        "November"@
    } else {
        "December"@
    }
}

/// For a month 1..=12 the month word of the date line is that month's
/// calendar name (12 gives "December"), the same text `month_full` returns:
/// the line is the weekday, ", ", the day, a space, the month's name, a
/// space and the year.
pub proof fn law_date_line_names_the_month(dt: DateTime)
    requires
        1 <= dt.month <= 12,
    ensures
        date_text(dt) == ascii_bytes(weekday_full_text(zeller_weekday(dt))) + seq![44u8, 32u8]
            + decimal(dt.day as nat) + seq![32u8] + ascii_bytes(calendar_month_name(dt.month as int))
            + seq![32u8] + decimal(dt.year as nat),
        month_full_text(month_index(dt.month)) == calendar_month_name(dt.month as int),
{
}

/// After the frame is drawn the box has both sides: every cell of columns
/// 15 and 64 on rows 7..=17, except the divider row 9, holds the vertical
/// line 0xBA in light cyan on blue (attribute 0x1B); row 9 holds the
/// junctions 0xCC and 0xB9 there, and the corners are 0xC9, 0xBB, 0xC8, 0xBC.
pub proof fn law_frame_has_both_sides()
    ensures
        forall|r: int|
            7 <= r <= 17 && r != 9 ==> #[trigger] frame_screen()[r * 80 + 15] == (ScreenChar {
                ascii_character: 0xBA,
                color_code: ColorCode(0x1B),
            }) && frame_screen()[r * 80 + 64] == (ScreenChar {
                ascii_character: 0xBA,
                color_code: ColorCode(0x1B),
            }),
        frame_screen()[9 * 80 + 15int] == (ScreenChar { ascii_character: 0xCC, color_code: ColorCode(0x1B) }),
        frame_screen()[9 * 80 + 64int] == (ScreenChar { ascii_character: 0xB9, color_code: ColorCode(0x1B) }),
        frame_screen()[6 * 80 + 15int] == (ScreenChar { ascii_character: 0xC9, color_code: ColorCode(0x1B) }),
        frame_screen()[6 * 80 + 64int] == (ScreenChar { ascii_character: 0xBB, color_code: ColorCode(0x1B) }),
        frame_screen()[18 * 80 + 15int] == (ScreenChar { ascii_character: 0xC8, color_code: ColorCode(0x1B) }),
        frame_screen()[18 * 80 + 64int] == (ScreenChar { ascii_character: 0xBC, color_code: ColorCode(0x1B) }),
{
    assert forall|r: int| 7 <= r <= 17 && r != 9 implies #[trigger] frame_screen()[r * 80 + 15]
        == (ScreenChar { ascii_character: 0xBA, color_code: ColorCode(0x1B) }) && frame_screen()[r
        * 80 + 64] == (ScreenChar { ascii_character: 0xBA, color_code: ColorCode(0x1B) }) by {
        reveal_strlit("BARE-METAL  RTC  CLOCK");
        assert((r * 80 + 15) / 80 == r && (r * 80 + 15) % 80 == 15);
        assert((r * 80 + 64) / 80 == r && (r * 80 + 64) % 80 == 64);
    }
}

} // verus!
