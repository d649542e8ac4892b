//! CMOS real-time clock: register protocol and time decoding.
//!
//! The clock chip is reached through an index port (0x70) and a data port
//! (0x71). The port accesses themselves happen outside this library; here
//! lives everything that is decided from the bytes those accesses return.

use vstd::prelude::*;
use vstd::string::is_ascii;

verus! {

/// Register index of the seconds counter.
pub const REG_SECONDS: u8 = 0x00;
/// Register index of the minutes counter.
pub const REG_MINUTES: u8 = 0x02;
/// Register index of the hours counter (bit 7 is the PM flag in 12-hour mode).
pub const REG_HOURS: u8 = 0x04;
/// Register index of the day of the month.
pub const REG_DAY: u8 = 0x07;
/// Register index of the month.
pub const REG_MONTH: u8 = 0x08;
/// Register index of the two-digit year.
pub const REG_YEAR: u8 = 0x09;
/// Status register A; bit 7 is set while the chip updates its counters.
pub const REG_STATUS_A: u8 = 0x0A;
/// Status register B; bit 2 selects binary mode, bit 1 selects 24-hour mode.
pub const REG_STATUS_B: u8 = 0x0B;

/// A calendar date and time of day.
#[derive(Clone, Copy, Debug, PartialEq, Eq, Structural)]
pub struct DateTime {
    pub year: u16,
    pub month: u8,
    pub day: u8,
    pub hour: u8,
    pub minute: u8,
    pub second: u8,
}

/// Plain value of a binary-coded-decimal byte: low nibble plus ten times the high nibble.
pub open spec fn bcd_value(value: u8) -> int {
    (value % 16) + (value / 16) * 10
}

/// Convert a binary-coded-decimal byte to its binary value (`0x59` becomes `59`).
pub fn bcd_to_binary(value: u8) -> (r: u8)
    ensures
        r == bcd_value(value),
{
    proof {
        assert(value & 0x0F == value % 16) by (bit_vector);
        assert(value >> 4 == value / 16) by (bit_vector);
    }
    (value & 0x0F) + ((value >> 4) * 10)
}

/// Bit 7 of status register A: the chip is in the middle of an update.
pub open spec fn update_flag_set(status_a: u8) -> bool {
    status_a >= 0x80
}

/// True when a value read from status register A reports an update in progress.
pub fn update_in_progress(status_a: u8) -> (r: bool)
    ensures
        r == update_flag_set(status_a),
{
    proof {
        assert((status_a & 0x80 != 0) == (status_a >= 0x80)) by (bit_vector);
    }
    status_a & 0x80 != 0
}

/// Bit 2 of status register B: counters are kept in binary rather than BCD.
pub open spec fn binary_mode(status_b: u8) -> bool {
    (status_b / 4) % 2 == 1
}

/// Bit 1 of status register B: hours are kept in 24-hour form.
pub open spec fn twenty_four_hour_mode(status_b: u8) -> bool {
    (status_b / 2) % 2 == 1
}

/// A counter byte read as a number in the encoding that status register B selects.
pub open spec fn counter_value(v: u8, status_b: u8) -> int {
    if binary_mode(status_b) {
        v as int
    } else {
        bcd_value(v)
    }
}

/// The hour in 24-hour form: the PM flag (bit 7) is dropped before the value
/// is read, and in 12-hour mode `12` stands for `0` and PM adds twelve.
pub open spec fn decoded_hour(raw_hour: u8, status_b: u8) -> int {
    let h = counter_value((raw_hour % 128) as u8, status_b);
    if twenty_four_hour_mode(status_b) {
        h
    } else {
        h % 12 + if raw_hour >= 128 {
            12int
        } else {
            0int
        }
    }
}

/// The date and time that raw register bytes stand for, given status register B.
/// The two-digit year is taken to lie in the 2000s.
pub open spec fn decoded_date_time(raw: DateTime, status_b: u8) -> DateTime {
    DateTime {
        year: (counter_value(raw.year as u8, status_b) + 2000) as u16,
        month: counter_value(raw.month, status_b) as u8,
        day: counter_value(raw.day, status_b) as u8,
        hour: decoded_hour(raw.hour, status_b) as u8,
        minute: counter_value(raw.minute, status_b) as u8,
        second: counter_value(raw.second, status_b) as u8,
    }
}

/// Decode raw register bytes (each year byte below 256) into a calendar date
/// and time in binary, 24-hour form, with a four-digit year.
pub fn decode(raw: DateTime, status_b: u8) -> (dt: DateTime)
    requires
        raw.year < 256,
    ensures
        dt == decoded_date_time(raw, status_b),
{
    let raw_hour = raw.hour;
    proof {
        assert((status_b & 0x04 != 0) == ((status_b / 4) % 2 == 1)) by (bit_vector);
        assert((status_b & 0x02 != 0) == ((status_b / 2) % 2 == 1)) by (bit_vector);
        assert((raw_hour & 0x80 != 0) == (raw_hour >= 128)) by (bit_vector);
        assert(raw_hour & 0x7F == raw_hour % 128) by (bit_vector);
    }
    let is_binary = status_b & 0x04 != 0;
    let is_24_hour = status_b & 0x02 != 0;
    let hour_pm_flag = raw_hour & 0x80 != 0;

    let mut dt = raw;
    if !is_binary {
        dt.second = bcd_to_binary(dt.second);
        dt.minute = bcd_to_binary(dt.minute);
        dt.day = bcd_to_binary(dt.day);
        dt.month = bcd_to_binary(dt.month);
        dt.year = bcd_to_binary(dt.year as u8) as u16;
        dt.hour = bcd_to_binary(raw_hour & 0x7F);
    } else {
        dt.hour = raw_hour & 0x7F;
    }
    if !is_24_hour {
        dt.hour = dt.hour % 12;
        if hour_pm_flag {
            dt.hour = dt.hour + 12;
        }
    }
    dt.year = dt.year + 2000;
    dt
}

/// Zeller's congruence for the date in `dt`, rotated so that 0 is Sunday.
/// January and February count as months 13 and 14 of the previous year;
/// the divisions round towards zero, as machine integer division does.
pub open spec fn zeller_weekday(dt: DateTime) -> int {
    let m = dt.month as int;
    let mm = if m < 3 {
        m + 12
    } else {
        m
    };
    let y = if m < 3 {
        dt.year - 1
    } else {
        dt.year as int
    };
    let k = if y >= 0 {
        y % 100
    } else {
        -1int
    };
    let k4 = if y >= 0 {
        k / 4
    } else {
        0int
    };
    let j = if y >= 0 {
        y / 100
    } else {
        0int
    };
    let h = (dt.day + (13 * (mm + 1)) / 5 + k + k4 + j / 4 + 5 * j) % 7;
    (h + 6) % 7
}

/// Day of the week of `dt` by Zeller's congruence: 0 = Sunday .. 6 = Saturday.
pub fn day_of_week(dt: &DateTime) -> (r: u8)
    ensures
        r == zeller_weekday(*dt),
        r < 7,
        dt.year >= 1 && is_valid_date(*dt) ==> r == day_number(*dt) % 7,
{
    proof {
        if dt.year >= 1 && is_valid_date(*dt) {
            lemma_zeller_is_calendar_weekday(*dt);
        }
    }
    let (mut y, m) = (dt.year as i32, dt.month as i32);
    let mm = if m < 3 {
        m + 12
    } else {
        m
    };
    if m < 3 {
        y -= 1;
    }
    let k = y % 100;
    let j = y / 100;
    let q = dt.day as i32;
    let h = (q + (13 * (mm + 1)) / 5 + k + k / 4 + j / 4 + 5 * j) % 7;
    ((h + 6) % 7) as u8
}

/// Gregorian leap-year rule.
pub open spec fn is_leap_year(y: int) -> bool {
    (y % 4 == 0 && y % 100 != 0) || y % 400 == 0
}

/// Number of days in month `m` (1 = January) of year `y`.
pub open spec fn days_in_month(y: int, m: int) -> int {
    if m == 2 {
        if is_leap_year(y) {
            29
        } else {
            28
        }
    } else if m == 4 || m == 6 || m == 9 || m == 11 {
        30
    } else {
        31
    }
}

/// Days in the months of year `y` that come before month `m`.
pub open spec fn days_before_month(y: int, m: int) -> int
    decreases m,
{
    if m <= 1 {
        0
    } else {
        days_before_month(y, m - 1) + days_in_month(y, m - 1)
    }
}

/// Days in the years from year 1 up to, not including, year `y`.
pub open spec fn days_before_year(y: int) -> int
    decreases y,
{
    if y <= 1 {
        0
    } else {
        days_before_year(y - 1) + if is_leap_year(y - 1) {
            366int
        } else {
            365int
        }
    }
}

/// Position of the date in the proleptic Gregorian calendar, counting
/// 1 January of year 1 (a Monday) as day 1.
pub open spec fn day_number(dt: DateTime) -> int {
    days_before_year(dt.year as int) + days_before_month(dt.year as int, dt.month as int)
        + dt.day
}

/// The month is 1..=12 and the day exists in that month.
pub open spec fn is_valid_date(dt: DateTime) -> bool {
    1 <= dt.month <= 12 && 1 <= dt.day <= days_in_month(dt.year as int, dt.month as int)
}

/// Number of leap years among years 1..=n.
pub open spec fn leap_years_through(n: int) -> int {
    n / 4 - n / 100 + n / 400
}

proof fn lemma_leap_count_step(n: int)
    requires
        n >= 1,
    ensures
        leap_years_through(n) == leap_years_through(n - 1) + if is_leap_year(n) {
            1int
        } else {
            0int
        },
{
}

/// The days before year `y` in closed form: 365 per year plus one per leap year.
proof fn lemma_days_before_year(y: int)
    requires
        y >= 1,
    ensures
        days_before_year(y) == 365 * (y - 1) + leap_years_through(y - 1),
    decreases y,
{
    if y > 1 {
        lemma_days_before_year(y - 1);
        lemma_leap_count_step(y - 1);
    }
}

/// Days from 1 March to the first day of month `mm`, for months numbered
/// from March (3) to the following February (14).
spec fn days_since_march(mm: int) -> int {
    if mm == 3 {
        0
    } else if mm == 4 {
        31
    } else if mm == 5 {
        61
    } else if mm == 6 {
        92
    } else if mm == 7 {
        122
    } else if mm == 8 {
        153
    } else if mm == 9 {
        184
    } else if mm == 10 {
        214
    } else if mm == 11 {
        245
    } else if mm == 12 {
        275
    } else if mm == 13 {
        306
    } else {
        337
    }
}

/// The year that Zeller's congruence works in: January and February belong
/// to the previous year.
spec fn march_year(dt: DateTime) -> int {
    if dt.month < 3 {
        dt.year - 1
    } else {
        dt.year as int
    }
}

/// The month as Zeller's congruence numbers it: March is 3, February is 14.
spec fn march_month(dt: DateTime) -> int {
    if dt.month < 3 {
        dt.month + 12
    } else {
        dt.month as int
    }
}

/// Days before 1 March of year `y + 1` in closed form.
spec fn days_through_february(y: int) -> int {
    365 * y + y / 4 - y / 100 + y / 400
}

proof fn lemma_day_number_from_march(dt: DateTime)
    requires
        dt.year >= 1,
        is_valid_date(dt),
    ensures
        day_number(dt) == days_through_february(march_year(dt)) - 306 + days_since_march(
            march_month(dt),
        ) + dt.day,
{
    let year = dt.year as int;
    let m = dt.month as int;
    reveal_with_fuel(days_before_month, 13);
    lemma_days_before_year(year);
    if m >= 3 {
        lemma_leap_count_step(year);
    }
}

proof fn lemma_century_split(y: int)
    requires
        y >= 0,
    ensures
        days_through_february(y) == 36524 * (y / 100) + 365 * (y % 100) + (y % 100) / 4 + (y
            / 100) / 4,
{
    let j = y / 100;
    let k = y % 100;
    assert(y == 100 * j + k);
    assert(y / 4 == 25 * j + k / 4);
    assert(y / 400 == j / 4);
}

proof fn lemma_month_term(mm: int)
    requires
        3 <= mm <= 14,
    ensures
        (days_since_march(mm) - (13 * (mm + 1)) / 5 - 305) % 7 == 0,
{
}

/// Zeller's congruence gives the weekday of the Gregorian date: the day
/// number modulo 7, with day 1 (1 January of year 1) a Monday.
#[verifier::spinoff_prover]
proof fn lemma_zeller_is_calendar_weekday(dt: DateTime)
    requires
        dt.year >= 1,
        is_valid_date(dt),
    ensures
        zeller_weekday(dt) == day_number(dt) % 7,
{
    let y = march_year(dt);
    let mm = march_month(dt);
    let q = dt.day as int;
    let g = days_since_march(mm);
    lemma_day_number_from_march(dt);
    lemma_century_split(y);
    lemma_month_term(mm);
    let j = y / 100;
    let k = y % 100;
    let z = (13 * (mm + 1)) / 5;
    let h = q + z + k + k / 4 + j / 4 + 5 * j;
    let t = (g - z - 305) / 7;
    let d = day_number(dt);
    assert(d - h + 1 == 7 * (5217 * j + 52 * k + t));
    assert(zeller_weekday(dt) == (h % 7 + 6) % 7);
    assert(d % 7 == (h % 7 + 6) % 7) by {
        assert(d == h - 1 + 7 * (5217 * j + 52 * k + t));
    }
}

/// Full English name of weekday `i` (0 = Sunday .. 6 = Saturday).
pub open spec fn weekday_full_text(i: int) -> Seq<char> {
    if i == 0 {
        "Sunday"@
    } else if i == 1 {
        "Monday"@
    } else if i == 2 {
        "Tuesday"@
    } else if i == 3 {
        "Wednesday"@
    } else if i == 4 {
        "Thursday"@
    } else if i == 5 {
        "Friday"@
    } else {
        "Saturday"@
    }
}

/// Full name of the weekday `index` counts from Sunday; indices wrap modulo 7.
pub fn weekday_full(index: u8) -> (s: &'static str)
    ensures
        s@ == weekday_full_text((index % 7) as int),
        is_ascii(s),
{
    let i = index % 7;
    if i == 0 {
        proof {
            reveal_strlit("Sunday");
        }
        "Sunday"
    } else if i == 1 {
        proof {
            reveal_strlit("Monday");
        }
        "Monday"
    } else if i == 2 {
        proof {
            reveal_strlit("Tuesday");
        }
        "Tuesday"
    } else if i == 3 {
        proof {
            reveal_strlit("Wednesday");
        }
        "Wednesday"
    } else if i == 4 {
        proof {
            reveal_strlit("Thursday");
        }
        "Thursday"
    } else if i == 5 {
        proof {
            reveal_strlit("Friday");
        }
        "Friday"
    } else {
        proof {
            reveal_strlit("Saturday");
        }
        "Saturday"
    }
}

/// Table position used for month `month`: month 0 and 1 both give January,
/// months past December wrap around.
pub open spec fn month_index(month: u8) -> int {
    (if month >= 1 {
        month - 1
    } else {
        0int
    }) % 12
}

/// Full English name of month `i + 1` (0 = January .. 11 = December).
pub open spec fn month_full_text(i: int) -> Seq<char> {
    if i == 0 {
        "January"@
    } else if i == 1 {
        "February"@
    } else if i == 2 {
        "March"@
    } else if i == 3 {
        "April"@
    } else if i == 4 {
        "May"@
    } else if i == 5 {
        "June"@
    } else if i == 6 {
        "July"@
    } else if i == 7 {
        "August"@
    } else if i == 8 {
        "September"@
    } else if i == 9 {
        "October"@
    } else if i == 10 {
        "November"@
    } else {
        "December"@
    }
}

/// Full name of month `month` (1 = January); out-of-range months wrap so that no index fails.
pub fn month_full(month: u8) -> (s: &'static str)
    ensures
        s@ == month_full_text(month_index(month)),
        is_ascii(s),
{
    let i = month.saturating_sub(1) % 12;
    if i == 0 {
        proof {
            reveal_strlit("January");
        }
        "January"
    } else if i == 1 {
        proof {
            reveal_strlit("February");
        }
        "February"
    } else if i == 2 {
        proof {
            reveal_strlit("March");
        }
        "March"
    } else if i == 3 {
        proof {
            reveal_strlit("April");
        }
        "April"
    } else if i == 4 {
        proof {
            reveal_strlit("May");
        }
        "May"
    } else if i == 5 {
        proof {
            reveal_strlit("June");
        }
        "June"
    } else if i == 6 {
        proof {
            reveal_strlit("July");
        }
        "July"
    } else if i == 7 {
        proof {
            reveal_strlit("August");
        }
        "August"
    } else if i == 8 {
        proof {
            reveal_strlit("September");
        }
        "September"
    } else if i == 9 {
        proof {
            reveal_strlit("October");
        }
        "October"
    } else if i == 10 {
        proof {
            reveal_strlit("November");
        }
        "November"
    } else {
        proof {
            reveal_strlit("December");
        }
        "December"
    }
}

/// Three-letter English name of weekday `i` (0 = Sunday .. 6 = Saturday).
pub open spec fn weekday_short_text(i: int) -> Seq<char> {
    if i == 0 {
        "Sun"@
    } else if i == 1 {
        "Mon"@
    } else if i == 2 {
        "Tue"@
    } else if i == 3 {
        "Wed"@
    } else if i == 4 {
        "Thu"@
    } else if i == 5 {
        "Fri"@
    } else {
        "Sat"@
    }
}

/// Three-letter name of the weekday `index` counts from Sunday; indices wrap modulo 7.
pub fn weekday_name(index: u8) -> (s: &'static str)
    ensures
        s@ == weekday_short_text((index % 7) as int),
        is_ascii(s),
{
    let i = index % 7;
    if i == 0 {
        proof {
            reveal_strlit("Sun");
        }
        "Sun"
    } else if i == 1 {
        proof {
            reveal_strlit("Mon");
        }
        "Mon"
    } else if i == 2 {
        proof {
            reveal_strlit("Tue");
        }
        "Tue"
    } else if i == 3 {
        proof {
            reveal_strlit("Wed");
        }
        "Wed"
    } else if i == 4 {
        proof {
            reveal_strlit("Thu");
        }
        "Thu"
    } else if i == 5 {
        proof {
            reveal_strlit("Fri");
        }
        "Fri"
    } else {
        proof {
            reveal_strlit("Sat");
        }
        "Sat"
    }
}

/// Three-letter English name of month `i + 1` (0 = January .. 11 = December).
pub open spec fn month_short_text(i: int) -> Seq<char> {
    if i == 0 {
        "Jan"@
    } else if i == 1 {
        "Feb"@
    } else if i == 2 {
        "Mar"@
    } else if i == 3 {
        "Apr"@
    } else if i == 4 {
        "May"@
    } else if i == 5 {
        "Jun"@
    } else if i == 6 {
        "Jul"@
    } else if i == 7 {
        "Aug"@
    } else if i == 8 {
        "Sep"@
    } else if i == 9 {
        "Oct"@
    } else if i == 10 {
        "Nov"@
    } else {
        "Dec"@
    }
}

/// Three-letter name of month `month` (1 = January); out-of-range months wrap so that no index fails.
pub fn month_name(month: u8) -> (s: &'static str)
    ensures
        s@ == month_short_text(month_index(month)),
        is_ascii(s),
{
    let i = month.saturating_sub(1) % 12;
    if i == 0 {
        proof {
            reveal_strlit("Jan");
        }
        "Jan"
    } else if i == 1 {
        proof {
            reveal_strlit("Feb");
        }
        "Feb"
    } else if i == 2 {
        proof {
            reveal_strlit("Mar");
        }
        "Mar"
    } else if i == 3 {
        proof {
            reveal_strlit("Apr");
        }
        "Apr"
    } else if i == 4 {
        proof {
            reveal_strlit("May");
        }
        "May"
    } else if i == 5 {
        proof {
            reveal_strlit("Jun");
        }
        "Jun"
    } else if i == 6 {
        proof {
            reveal_strlit("Jul");
        }
        "Jul"
    } else if i == 7 {
        proof {
            reveal_strlit("Aug");
        }
        "Aug"
    } else if i == 8 {
        proof {
            reveal_strlit("Sep");
        }
        "Sep"
    } else if i == 9 {
        proof {
            reveal_strlit("Oct");
        }
        "Oct"
    } else if i == 10 {
        proof {
            reveal_strlit("Nov");
        }
        "Nov"
    } else {
        proof {
            reveal_strlit("Dec");
        }
        "Dec"
    }
}

// ======================================================================
// Reading the clock: the register protocol
// ======================================================================

/// Where a clock read stands in the register protocol.
#[derive(Clone, Copy, Debug, PartialEq, Eq, Structural)]
pub enum Stage {
    /// Polling status register A until no update is in progress, before the first snapshot.
    WaitFirst,
    /// Reading the six counters of the first snapshot.
    First,
    /// Polling status register A before a confirming snapshot.
    WaitAgain,
    /// Reading the six counters of a confirming snapshot.
    Again,
    /// Two consecutive snapshots agree; reading status register B.
    StatusB,
}

/// The values that determine what a reader does next.
pub struct ReaderState {
    pub stage: Stage,
    /// Which of the six counters is read next, in `First` and `Again`.
    pub index: usize,
    /// The last complete snapshot (raw register bytes).
    pub last: DateTime,
    /// The confirming snapshot being read.
    pub current: DateTime,
}

/// Counter register read at position `i` of a snapshot: seconds, minutes,
/// hours, day, month, year.
pub open spec fn snapshot_register(i: int) -> u8 {
    if i == 0 {
        REG_SECONDS
    } else if i == 1 {
        REG_MINUTES
    } else if i == 2 {
        REG_HOURS
    } else if i == 3 {
        REG_DAY
    } else if i == 4 {
        REG_MONTH
    } else {
        REG_YEAR
    }
}

/// `raw` with the counter at snapshot position `i` replaced by the byte `v`.
pub open spec fn with_counter(raw: DateTime, i: int, v: u8) -> DateTime {
    if i == 0 {
        DateTime { second: v, ..raw }
    } else if i == 1 {
        DateTime { minute: v, ..raw }
    } else if i == 2 {
        DateTime { hour: v, ..raw }
    } else if i == 3 {
        DateTime { day: v, ..raw }
    } else if i == 4 {
        DateTime { month: v, ..raw }
    } else {
        DateTime { year: v as u16, ..raw }
    }
}

/// The (register, byte) pairs of a snapshot whose bytes are those of `raw`.
pub open spec fn snapshot_reads(raw: DateTime) -> Seq<(u8, u8)> {
    seq![
        (REG_SECONDS, raw.second),
        (REG_MINUTES, raw.minute),
        (REG_HOURS, raw.hour),
        (REG_DAY, raw.day),
        (REG_MONTH, raw.month),
        (REG_YEAR, raw.year as u8),
    ]
}

/// A read of status register A that found no update in progress.
pub open spec fn clear_poll(e: (u8, u8)) -> bool {
    e.0 == REG_STATUS_A && !update_flag_set(e.1)
}

/// A read of status register A that found an update in progress.
pub open spec fn busy_poll(e: (u8, u8)) -> bool {
    e.0 == REG_STATUS_A && update_flag_set(e.1)
}

/// Reads of status register A that all found an update in progress.
pub open spec fn busy_polls(s: Seq<(u8, u8)>) -> bool {
    forall|i: int| 0 <= i < s.len() ==> busy_poll(#[trigger] s[i])
}

/// The register reads `log` end with: a clear status-A poll at `p`, a
/// snapshot `raw`, polls that found the chip busy, a clear poll at `q`,
/// the same snapshot `raw` again, and status register B holding `status_b`.
pub open spec fn confirmed_snapshot(
    log: Seq<(u8, u8)>,
    p: int,
    q: int,
    raw: DateTime,
    status_b: u8,
) -> bool {
    &&& 0 <= p
    &&& p + 7 <= q
    &&& q + 8 == log.len()
    &&& raw.year < 256
    &&& clear_poll(log[p])
    &&& log.subrange(p + 1, p + 7) == snapshot_reads(raw)
    &&& busy_polls(log.subrange(p + 7, q))
    &&& clear_poll(log[q])
    &&& log.subrange(q + 1, q + 7) == snapshot_reads(raw)
    &&& log[q + 7] == (REG_STATUS_B, status_b)
}

/// `dt` is what the register reads `log` report once two consecutive
/// snapshots, each taken while no update was in progress, agree.
pub open spec fn stable_reading(log: Seq<(u8, u8)>, dt: DateTime) -> bool {
    exists|p: int, q: int, raw: DateTime, status_b: u8|
        #[trigger] confirmed_snapshot(log, p, q, raw, status_b) && dt == decoded_date_time(
            raw,
            status_b,
        )
}

/// The state a read starts from.
pub open spec fn initial_reader_state() -> ReaderState {
    let zero = DateTime { year: 0, month: 0, day: 0, hour: 0, minute: 0, second: 0 };
    ReaderState { stage: Stage::WaitFirst, index: 0, last: zero, current: zero }
}

/// The register a reader in state `s` asks to be read next.
pub open spec fn register_for(s: ReaderState) -> u8 {
    match s.stage {
        Stage::WaitFirst => REG_STATUS_A,
        Stage::First => snapshot_register(s.index as int),
        Stage::WaitAgain => REG_STATUS_A,
        Stage::Again => snapshot_register(s.index as int),
        Stage::StatusB => REG_STATUS_B,
    }
}

/// One step of the protocol: the reader in state `s` is handed the byte `v`
/// read from `register_for(s)`; the result is the next state and, once a
/// read is complete, the decoded date and time.
pub open spec fn reader_step(s: ReaderState, v: u8) -> (ReaderState, Option<DateTime>) {
    match s.stage {
        Stage::WaitFirst => if update_flag_set(v) {
            (s, None)
        } else {
            (ReaderState { stage: Stage::First, index: 0, ..s }, None)
        },
        Stage::First => {
            let last = with_counter(s.last, s.index as int, v);
            if s.index >= 5 {
                (ReaderState { stage: Stage::WaitAgain, index: 0, last, ..s }, None)
            } else {
                (ReaderState { index: (s.index + 1) as usize, last, ..s }, None)
            }
        },
        Stage::WaitAgain => if update_flag_set(v) {
            (s, None)
        } else {
            (ReaderState { stage: Stage::Again, index: 0, ..s }, None)
        },
        Stage::Again => {
            let current = with_counter(s.current, s.index as int, v);
            if s.index < 5 {
                (ReaderState { index: (s.index + 1) as usize, current, ..s }, None)
            } else if current == s.last {
                (ReaderState { stage: Stage::StatusB, index: 0, current, ..s }, None)
            } else {
                (ReaderState { stage: Stage::WaitAgain, index: 0, last: current, current, ..s }, None)
            }
        },
        Stage::StatusB => (initial_reader_state(), Some(decoded_date_time(s.last, v))),
    }
}

/// A clock read in progress. The caller reads the register that
/// `next_register` names, hands the byte to `read`, and repeats until `read`
/// returns the date and time.
pub struct RtcReader {
    stage: Stage,
    index: usize,
    last: DateTime,
    current: DateTime,
    /// The (register, byte) pairs handed over since this read began.
    log: Ghost<Seq<(u8, u8)>>,
    /// Position in `log` of the clear poll before the snapshot in `last`.
    first_at: Ghost<int>,
    /// Position in `log` of the clear poll before the snapshot in `current`.
    again_at: Ghost<int>,
}

impl RtcReader {
    /// The protocol state of this reader.
    pub closed spec fn state(&self) -> ReaderState {
        ReaderState { stage: self.stage, index: self.index, last: self.last, current: self.current }
    }

    /// The register reads handed to this reader since its read began.
    pub closed spec fn log(&self) -> Seq<(u8, u8)> {
        self.log@
    }

    /// The state agrees with the register reads handed over so far.
    pub closed spec fn wf(&self) -> bool {
        let log = self.log@;
        let p = self.first_at@;
        let q = self.again_at@;
        &&& self.index < 6
        &&& self.last.year < 256
        &&& self.current.year < 256
        &&& match self.stage {
            Stage::WaitFirst => self.index == 0 && busy_polls(log),
            Stage::First => {
                &&& 0 <= p
                &&& log.len() == p + 1 + self.index
                &&& clear_poll(log[p])
                &&& log.subrange(p + 1, log.len() as int) == snapshot_reads(self.last).take(
                    self.index as int,
                )
            },
            Stage::WaitAgain => {
                &&& self.index == 0
                &&& 0 <= p
                &&& p + 7 <= log.len()
                &&& clear_poll(log[p])
                &&& log.subrange(p + 1, p + 7) == snapshot_reads(self.last)
                &&& busy_polls(log.subrange(p + 7, log.len() as int))
            },
            Stage::Again => {
                &&& 0 <= p
                &&& p + 7 <= q
                &&& log.len() == q + 1 + self.index
                &&& clear_poll(log[p])
                &&& log.subrange(p + 1, p + 7) == snapshot_reads(self.last)
                &&& busy_polls(log.subrange(p + 7, q))
                &&& clear_poll(log[q])
                &&& log.subrange(q + 1, log.len() as int) == snapshot_reads(self.current).take(
                    self.index as int,
                )
            },
            Stage::StatusB => {
                &&& self.index == 0
                &&& 0 <= p
                &&& p + 7 <= q
                &&& log.len() == q + 7
                &&& clear_poll(log[p])
                &&& log.subrange(p + 1, p + 7) == snapshot_reads(self.last)
                &&& busy_polls(log.subrange(p + 7, q))
                &&& clear_poll(log[q])
                &&& log.subrange(q + 1, q + 7) == snapshot_reads(self.last)
            },
        }
    }

    /// A reader at the start of a clock read.
    pub fn new() -> (r: RtcReader)
        ensures
            r.wf(),
            r.state() == initial_reader_state(),
            r.log() == Seq::<(u8, u8)>::empty(),
    {
        let zero = DateTime { year: 0, month: 0, day: 0, hour: 0, minute: 0, second: 0 };
        RtcReader {
            stage: Stage::WaitFirst,
            index: 0,
            last: zero,
            current: zero,
            log: Ghost(Seq::empty()),
            first_at: Ghost(0),
            again_at: Ghost(0),
        }
    }

    /// The register whose byte the reader needs next.
    pub fn next_register(&self) -> (reg: u8)
        ensures
            reg == register_for(self.state()),
    {
        match self.stage {
            Stage::WaitFirst => REG_STATUS_A,
            Stage::First => counter_register(self.index),
            Stage::WaitAgain => REG_STATUS_A,
            Stage::Again => counter_register(self.index),
            Stage::StatusB => REG_STATUS_B,
        }
    }
}

/// The counter register read at snapshot position `i`.
fn counter_register(i: usize) -> (reg: u8)
    ensures
        reg == snapshot_register(i as int),
{
    if i == 0 {
        REG_SECONDS
    } else if i == 1 {
        REG_MINUTES
    } else if i == 2 {
        REG_HOURS
    } else if i == 3 {
        REG_DAY
    } else if i == 4 {
        REG_MONTH
    } else {
        REG_YEAR
    }
}

/// `raw` with the counter at snapshot position `i` replaced by `v`.
fn set_counter(raw: DateTime, i: usize, v: u8) -> (r: DateTime)
    ensures
        r == with_counter(raw, i as int, v),
{
    let mut r = raw;
    if i == 0 {
        r.second = v;
    } else if i == 1 {
        r.minute = v;
    } else if i == 2 {
        r.hour = v;
    } else if i == 3 {
        r.day = v;
    } else if i == 4 {
        r.month = v;
    } else {
        r.year = v as u16;
    }
    r
}

/// Filling in the counter at position `i` extends the snapshot reads by one.
proof fn lemma_snapshot_extend(old_raw: DateTime, i: int, v: u8)
    requires
        0 <= i < 6,
        old_raw.year < 256,
    ensures
        snapshot_reads(with_counter(old_raw, i, v)).take(i + 1) =~= snapshot_reads(old_raw).take(
            i,
        ).push((snapshot_register(i), v)),
        with_counter(old_raw, i, v).year < 256,
{
    let new_raw = with_counter(old_raw, i, v);
    assert forall|j: int| 0 <= j < i implies #[trigger] snapshot_reads(new_raw)[j]
        == snapshot_reads(old_raw)[j] by {}
}

/// Hand the reader the byte just read from the register that
/// `next_register` named. Returns the date and time once the read is
/// complete; the reader is then ready to start the next read.
pub fn read(reader: &mut RtcReader, value: u8) -> (r: Option<DateTime>)
    requires
        old(reader).wf(),
    ensures
        final(reader).wf(),
        (final(reader).state(), r) == reader_step(old(reader).state(), value),
        r is None ==> final(reader).log() == old(reader).log().push(
            (register_for(old(reader).state()), value),
        ),
        r is Some ==> final(reader).log() == Seq::<(u8, u8)>::empty(),
        r matches Some(dt) ==> stable_reading(
            old(reader).log().push((register_for(old(reader).state()), value)),
            dt,
        ),
{
    let ghost reg = register_for(reader.state());
    let ghost log = reader.log@.push((reg, value));
    match reader.stage {
        Stage::WaitFirst => {
            let ghost prev = reader.log@;
            proof {
                assert(reg == REG_STATUS_A);
                assert(busy_polls(prev));
            }
            if !update_in_progress(value) {
                reader.stage = Stage::First;
                reader.index = 0;
                proof {
                    reader.first_at = Ghost((log.len() - 1) as int);
                    reader.log = Ghost(log);
                    let p = reader.first_at@;
                    assert(clear_poll(reader.log@[p]));
                    assert(reader.log@.subrange(p + 1, reader.log@.len() as int)
                        =~= snapshot_reads(reader.last).take(0));
                }
            } else {
                proof {
                    reader.log = Ghost(log);
                    assert forall|i: int| 0 <= i < log.len() implies busy_poll(#[trigger] log[i]) by {
                        if i < prev.len() {
                            assert(log[i] == prev[i]);
                        }
                    }
                    assert(reader.log@ == log);
                    assert(busy_polls(log));
                }
            }
            None
        },
        Stage::First => {
            proof {
                lemma_snapshot_extend(reader.last, reader.index as int, value);
            }
            let ghost p = reader.first_at@;
            reader.last = set_counter(reader.last, reader.index, value);
            if reader.index >= 5 {
                reader.stage = Stage::WaitAgain;
                reader.index = 0;
                proof {
                    assert(log.subrange(p + 1, p + 7) =~= reader.log@.subrange(
                        p + 1,
                        reader.log@.len() as int,
                    ).push((reg, value)));
                    assert(snapshot_reads(reader.last).take(6) =~= snapshot_reads(reader.last));
                    assert(log.subrange(p + 7, log.len() as int) =~= Seq::<(u8, u8)>::empty());
                }
            } else {
                reader.index = reader.index + 1;
                proof {
                    assert(log.subrange(p + 1, log.len() as int) =~= reader.log@.subrange(
                        p + 1,
                        reader.log@.len() as int,
                    ).push((reg, value)));
                }
            }
            proof {
                assert(log[p] == reader.log@[p]);
                reader.log = Ghost(log);
            }
            None
        },
        Stage::WaitAgain => {
            let ghost p = reader.first_at@;
            proof {
                assert(log[p] == reader.log@[p]);
                assert(log.subrange(p + 1, p + 7) =~= reader.log@.subrange(p + 1, p + 7));
            }
            if !update_in_progress(value) {
                reader.stage = Stage::Again;
                reader.index = 0;
                proof {
                    assert(reg == REG_STATUS_A);
                    assert(snapshot_reads(reader.current).take(0) =~= Seq::<(u8, u8)>::empty());
                    reader.again_at = Ghost((log.len() - 1) as int);
                    assert(log.subrange(p + 7, log.len() - 1) =~= reader.log@.subrange(
                        p + 7,
                        reader.log@.len() as int,
                    ));
                    assert(log.subrange(log.len() as int, log.len() as int) =~= Seq::<
                        (u8, u8),
                    >::empty());
                }
            } else {
                proof {
                    assert(reg == REG_STATUS_A);
                    let old_busy = reader.log@.subrange(p + 7, reader.log@.len() as int);
                    assert(busy_polls(old_busy));
                    assert(log.subrange(p + 7, log.len() as int) =~= old_busy.push((reg, value)));
                    assert forall|i: int| 0 <= i < old_busy.len() + 1 implies busy_poll(
                        #[trigger] old_busy.push((reg, value))[i],
                    ) by {
                        if i < old_busy.len() {
                            assert(old_busy.push((reg, value))[i] == old_busy[i]);
                        }
                    }
                }
            }
            proof {
                reader.log = Ghost(log);
            }
            None
        },
        Stage::Again => {
            let ghost p = reader.first_at@;
            let ghost q = reader.again_at@;
            proof {
                lemma_snapshot_extend(reader.current, reader.index as int, value);
                assert(log[p] == reader.log@[p]);
                assert(log[q] == reader.log@[q]);
                assert(log.subrange(p + 1, p + 7) =~= reader.log@.subrange(p + 1, p + 7));
                assert(log.subrange(p + 7, q) =~= reader.log@.subrange(p + 7, q));
                assert(log.subrange(q + 1, log.len() as int) =~= reader.log@.subrange(
                    q + 1,
                    reader.log@.len() as int,
                ).push((reg, value)));
            }
            reader.current = set_counter(reader.current, reader.index, value);
            if reader.index < 5 {
                reader.index = reader.index + 1;
            } else if reader.current == reader.last {
                reader.stage = Stage::StatusB;
                reader.index = 0;
                proof {
                    assert(snapshot_reads(reader.current).take(6) =~= snapshot_reads(
                        reader.current,
                    ));
                }
            } else {
                reader.stage = Stage::WaitAgain;
                reader.index = 0;
                reader.last = reader.current;
                proof {
                    assert(snapshot_reads(reader.current).take(6) =~= snapshot_reads(
                        reader.current,
                    ));
                    reader.first_at = Ghost(q);
                    assert(log.subrange(q + 7, log.len() as int) =~= Seq::<(u8, u8)>::empty());
                }
            }
            proof {
                reader.log = Ghost(log);
            }
            None
        },
        Stage::StatusB => {
            let ghost p = reader.first_at@;
            let ghost q = reader.again_at@;
            let ghost raw = reader.last;
            proof {
                assert(log[p] == reader.log@[p]);
                assert(log[q] == reader.log@[q]);
                assert(log.subrange(p + 1, p + 7) =~= reader.log@.subrange(p + 1, p + 7));
                assert(log.subrange(p + 7, q) =~= reader.log@.subrange(p + 7, q));
                assert(log.subrange(q + 1, q + 7) =~= reader.log@.subrange(q + 1, q + 7));
                assert(confirmed_snapshot(log, p, q, raw, value));
            }
            let dt = decode(reader.last, value);
            *reader = RtcReader::new();
            Some(dt)
        },
    }
}

/// The snapshot a clock whose registers hold `regs` reports.
pub open spec fn snapshot_of(regs: spec_fn(u8) -> u8) -> DateTime {
    DateTime {
        year: regs(REG_YEAR) as u16,
        month: regs(REG_MONTH),
        day: regs(REG_DAY),
        hour: regs(REG_HOURS),
        minute: regs(REG_MINUTES),
        second: regs(REG_SECONDS),
    }
}

/// Feed a reader in state `s` up to `n` bytes from a clock whose register
/// `r` holds `regs(r)`; stops at the first completed read.
pub open spec fn run_reader(s: ReaderState, regs: spec_fn(u8) -> u8, n: nat) -> (
    ReaderState,
    Option<DateTime>,
)
    decreases n,
{
    if n == 0 {
        (s, None)
    } else {
        let (next, out) = reader_step(s, regs(register_for(s)));
        if out is Some {
            (next, out)
        } else {
            run_reader(next, regs, (n - 1) as nat)
        }
    }
}

/// A clock that holds still, with no update in progress, is read in exactly
/// fifteen register reads (a status poll and six counters, twice, then
/// status register B), and the read reports what its registers hold.
pub proof fn law_steady_clock_is_read_in_fifteen_steps(regs: spec_fn(u8) -> u8)
    requires
        !update_flag_set(regs(REG_STATUS_A)),
    ensures
        run_reader(initial_reader_state(), regs, 14).1 is None,
        run_reader(initial_reader_state(), regs, 15) == (
            initial_reader_state(),
            Some(decoded_date_time(snapshot_of(regs), regs(REG_STATUS_B))),
        ),
{
    reveal_with_fuel(run_reader, 16);
}

/// The binary-coded-decimal byte of a number below 100: tens in the high
/// nibble, units in the low nibble (59 becomes `0x59`).
pub open spec fn bcd_byte(n: int) -> u8 {
    ((n / 10) * 16 + n % 10) as u8
}

/// Reading a binary-coded-decimal byte gives back the number it encodes.
pub proof fn law_bcd_value_of_encoded_number(n: int)
    requires
        0 <= n < 100,
    ensures
        bcd_value(bcd_byte(n)) == n,
{
}

/// In 12-hour BCD mode, an hour byte that encodes `h` (1..=12) with the PM
/// flag in bit 7 decodes to the 24-hour clock: 12 AM is 0, 1 PM is 13,
/// 12 PM is 12, and every result is below 24.
pub proof fn law_twelve_hour_bcd_to_24_hour(h: int, pm: bool, status_b: u8)
    requires
        1 <= h <= 12,
        !binary_mode(status_b),
        !twenty_four_hour_mode(status_b),
    ensures
        decoded_hour(
            (bcd_byte(h) + if pm {
                128int
            } else {
                0int
            }) as u8,
            status_b,
        ) == h % 12 + if pm {
            12int
        } else {
            0int
        },
        decoded_hour(
            (bcd_byte(h) + if pm {
                128int
            } else {
                0int
            }) as u8,
            status_b,
        ) < 24,
{
}

/// The register bytes a clock in BCD mode holds for `dt` (two-digit year).
pub open spec fn bcd_registers(dt: DateTime) -> DateTime {
    DateTime {
        year: bcd_byte((dt.year % 100) as int) as u16,
        month: bcd_byte(dt.month as int),
        day: bcd_byte(dt.day as int),
        hour: bcd_byte(dt.hour as int),
        minute: bcd_byte(dt.minute as int),
        second: bcd_byte(dt.second as int),
    }
}

/// Decoding undoes the clock's BCD, 24-hour encoding: a date and time of
/// the 2000s, stored by the chip in BCD, is read back unchanged.
pub proof fn law_decode_reads_back_bcd_registers(dt: DateTime, status_b: u8)
    requires
        !binary_mode(status_b),
        twenty_four_hour_mode(status_b),
        2000 <= dt.year < 2100,
        dt.month < 100,
        dt.day < 100,
        dt.hour < 24,
        dt.minute < 100,
        dt.second < 100,
    ensures
        bcd_registers(dt).year < 256,
        decoded_date_time(bcd_registers(dt), status_b) == dt,
{
    law_bcd_value_of_encoded_number((dt.year % 100) as int);
    law_bcd_value_of_encoded_number(dt.month as int);
    law_bcd_value_of_encoded_number(dt.day as int);
    law_bcd_value_of_encoded_number(dt.hour as int);
    law_bcd_value_of_encoded_number(dt.minute as int);
    law_bcd_value_of_encoded_number(dt.second as int);
}

/// In binary, 24-hour mode the registers hold the values themselves: a date
/// and time of the years 2000 to 2255 stored that way is read back unchanged.
pub proof fn law_decode_reads_back_binary_registers(dt: DateTime, status_b: u8)
    requires
        binary_mode(status_b),
        twenty_four_hour_mode(status_b),
        2000 <= dt.year < 2256,
        dt.hour < 128,
    ensures
        decoded_date_time(DateTime { year: (dt.year - 2000) as u16, ..dt }, status_b) == dt,
{
}

/// In BCD mode (bit 2 of status register B clear), whatever bit 1 says about
/// 12- or 24-hour form, the year, month, day, minute and second a chip
/// stores in BCD read back unchanged: each counter byte with the tens in the
/// high nibble and the units in the low nibble decodes to that number, and
/// the two-digit year to the same year of the 2000s.
pub proof fn law_bcd_counters_read_back_in_either_hour_mode(dt: DateTime, hour_byte: u8, status_b: u8)
    requires
        (status_b / 4) % 2 == 0,
        2000 <= dt.year < 2100,
        dt.month < 100,
        dt.day < 100,
        dt.minute < 100,
        dt.second < 100,
    ensures
        ({
            let raw = DateTime {
                year: (((dt.year - 2000) / 10) * 16 + (dt.year - 2000) % 10) as u16,
                month: ((dt.month / 10) * 16 + dt.month % 10) as u8,
                day: ((dt.day / 10) * 16 + dt.day % 10) as u8,
                hour: hour_byte,
                minute: ((dt.minute / 10) * 16 + dt.minute % 10) as u8,
                second: ((dt.second / 10) * 16 + dt.second % 10) as u8,
            };
            let got = decoded_date_time(raw, status_b);
            &&& got.year == dt.year
            &&& got.month == dt.month
            &&& got.day == dt.day
            &&& got.minute == dt.minute
            &&& got.second == dt.second
        }),
{
}

} // verus!
