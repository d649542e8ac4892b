use clock::rtc::{
    bcd_to_binary, day_of_week, decode, month_full, month_name, read, update_in_progress,
    weekday_full, weekday_name, DateTime, RtcReader, REG_DAY, REG_HOURS, REG_MINUTES, REG_MONTH,
    REG_SECONDS, REG_STATUS_A, REG_STATUS_B, REG_YEAR,
};

fn dt(year: u16, month: u8, day: u8, hour: u8, minute: u8, second: u8) -> DateTime {
    DateTime { year, month, day, hour, minute, second }
}

#[test]
fn bcd_bytes_decode_to_decimal() {
    assert_eq!(bcd_to_binary(0x59), 59);
    assert_eq!(bcd_to_binary(0x42), 42);
    assert_eq!(bcd_to_binary(0x18), 18);
    assert_eq!(bcd_to_binary(0x00), 0);
    assert_eq!(bcd_to_binary(0x99), 99);
}

#[test]
fn bcd_of_any_byte_is_nibble_formula() {
    assert_eq!(bcd_to_binary(0xFF), 15 + 150);
    assert_eq!(bcd_to_binary(0x3B), 11 + 30);
}

#[test]
fn update_flag_is_bit_seven() {
    assert!(update_in_progress(0x80));
    assert!(update_in_progress(0xA6));
    assert!(!update_in_progress(0x26));
    assert!(!update_in_progress(0x7F));
}

#[test]
fn decode_bcd_24_hour() {
    let raw = dt(0x26, 0x06, 0x19, 0x16, 0x00, 0x28);
    assert_eq!(decode(raw, 0x02), dt(2026, 6, 19, 16, 0, 28));
}

#[test]
fn decode_bcd_12_hour_am_pm() {
    // 12 AM -> 0, 1 PM -> 13, 12 PM -> 12, 11 PM -> 23, 9 AM -> 9
    let base = dt(0x26, 0x01, 0x01, 0, 0, 0);
    assert_eq!(decode(DateTime { hour: 0x12, ..base }, 0x00).hour, 0);
    assert_eq!(decode(DateTime { hour: 0x81, ..base }, 0x00).hour, 13);
    assert_eq!(decode(DateTime { hour: 0x92, ..base }, 0x00).hour, 12);
    assert_eq!(decode(DateTime { hour: 0x91, ..base }, 0x00).hour, 23);
    assert_eq!(decode(DateTime { hour: 0x09, ..base }, 0x00).hour, 9);
}

#[test]
fn decode_binary_modes() {
    let raw = dt(26, 12, 31, 23, 59, 58);
    assert_eq!(decode(raw, 0x06), dt(2026, 12, 31, 23, 59, 58));
    // binary, 12-hour: 1 PM is 0x81
    assert_eq!(decode(DateTime { hour: 0x81, ..raw }, 0x04).hour, 13);
    // binary 24-hour still drops the top bit of the hour byte
    assert_eq!(decode(DateTime { hour: 0x97, ..raw }, 0x06).hour, 23);
}

#[test]
fn weekday_of_known_dates() {
    assert_eq!(day_of_week(&dt(2026, 6, 19, 0, 0, 0)), 5); // Friday
    assert_eq!(day_of_week(&dt(2000, 1, 1, 0, 0, 0)), 6); // Saturday
    assert_eq!(day_of_week(&dt(2024, 2, 29, 0, 0, 0)), 4); // Thursday
    assert_eq!(day_of_week(&dt(2000, 3, 1, 0, 0, 0)), 3); // Wednesday
    assert_eq!(day_of_week(&dt(1, 1, 1, 0, 0, 0)), 1); // Monday
    assert_eq!(day_of_week(&dt(2100, 3, 1, 0, 0, 0)), 1); // Monday
}

#[test]
fn consecutive_days_have_consecutive_weekdays() {
    let mut prev = day_of_week(&dt(2023, 12, 31, 0, 0, 0));
    let days = [31u8, 29, 31, 30, 31, 30, 31, 31, 30, 31, 30, 31];
    for (m, &n) in days.iter().enumerate() {
        for d in 1..=n {
            let w = day_of_week(&dt(2024, m as u8 + 1, d, 0, 0, 0));
            assert_eq!(w, (prev + 1) % 7);
            prev = w;
        }
    }
}

#[test]
fn weekday_of_year_zero_january_follows_truncating_division() {
    assert_eq!(day_of_week(&dt(0, 1, 1, 0, 0, 0)), 0);
}

#[test]
fn names_wrap_instead_of_failing() {
    assert_eq!(weekday_full(5), "Friday");
    assert_eq!(weekday_full(12), "Friday");
    assert_eq!(weekday_full(0), "Sunday");
    assert_eq!(month_full(6), "June");
    assert_eq!(month_full(0), "January");
    assert_eq!(month_full(1), "January");
    assert_eq!(month_full(13), "January");
    assert_eq!(month_full(12), "December");
    assert_eq!(weekday_name(6), "Sat");
    assert_eq!(month_name(9), "Sep");
    assert_eq!(month_name(0), "Jan");
}

/// Run a read against a function giving each register's byte, counting register reads.
fn run_read(mut regs: impl FnMut(u8) -> u8) -> (DateTime, usize) {
    let mut reader = RtcReader::new();
    let mut steps = 0;
    loop {
        let reg = reader.next_register();
        steps += 1;
        if let Some(dt) = read(&mut reader, regs(reg)) {
            return (dt, steps);
        }
        assert!(steps < 1000);
    }
}

fn steady_regs(reg: u8) -> u8 {
    match reg {
        REG_STATUS_A => 0x26,
        REG_STATUS_B => 0x02,
        REG_SECONDS => 0x28,
        REG_MINUTES => 0x00,
        REG_HOURS => 0x16,
        REG_DAY => 0x19,
        REG_MONTH => 0x06,
        REG_YEAR => 0x26,
        _ => panic!("unexpected register {}", reg),
    }
}

#[test]
fn steady_clock_is_read_in_fifteen_register_reads() {
    let (dt, steps) = run_read(steady_regs);
    assert_eq!(dt, DateTime { year: 2026, month: 6, day: 19, hour: 16, minute: 0, second: 28 });
    assert_eq!(steps, 15);
}

#[test]
fn register_order_of_a_read() {
    let mut order = Vec::new();
    let _ = run_read(|r| {
        order.push(r);
        steady_regs(r)
    });
    assert_eq!(
        order,
        vec![
            REG_STATUS_A, REG_SECONDS, REG_MINUTES, REG_HOURS, REG_DAY, REG_MONTH, REG_YEAR,
            REG_STATUS_A, REG_SECONDS, REG_MINUTES, REG_HOURS, REG_DAY, REG_MONTH, REG_YEAR,
            REG_STATUS_B
        ]
    );
}

#[test]
fn busy_chip_is_polled_until_update_ends() {
    let mut busy = 3;
    let (dt, steps) = run_read(|r| {
        if r == REG_STATUS_A && busy > 0 {
            busy -= 1;
            0x80
        } else {
            steady_regs(r)
        }
    });
    assert_eq!(dt.second, 28);
    assert_eq!(steps, 18);
}

#[test]
fn changing_snapshot_is_read_again() {
    // The seconds register ticks once between the first two snapshots.
    let mut seconds_reads = 0;
    let (dt, steps) = run_read(|r| {
        if r == REG_SECONDS {
            seconds_reads += 1;
            if seconds_reads == 1 { 0x28 } else { 0x29 }
        } else {
            steady_regs(r)
        }
    });
    assert_eq!(dt.second, 29);
    assert_eq!(steps, 22);
}

#[test]
fn reader_starts_over_after_a_read() {
    let mut reader = RtcReader::new();
    loop {
        let reg = reader.next_register();
        if read(&mut reader, steady_regs(reg)).is_some() {
            break;
        }
    }
    assert_eq!(reader.next_register(), REG_STATUS_A);
}

fn to_bcd(n: u8) -> u8 {
    (n / 10) * 16 + n % 10
}

#[test]
fn bcd_registers_read_back_unchanged() {
    for year in [2000u16, 2026, 2099] {
        for hour in 0..24u8 {
            for minute in [0u8, 7, 30, 59] {
                let want = dt(year, 12, 31, hour, minute, 45);
                let raw = dt(
                    to_bcd((year % 100) as u8) as u16,
                    to_bcd(12),
                    to_bcd(31),
                    to_bcd(hour),
                    to_bcd(minute),
                    to_bcd(45),
                );
                assert_eq!(decode(raw, 0x02), want);
            }
        }
    }
}

#[test]
fn binary_registers_read_back_unchanged() {
    let want = dt(2255, 2, 28, 23, 59, 59);
    assert_eq!(decode(dt(255, 2, 28, 23, 59, 59), 0x06), want);
}

#[test]
fn bcd_encoding_reads_back_for_all_two_digit_numbers() {
    for n in 0..100u8 {
        assert_eq!(bcd_to_binary(to_bcd(n)), n);
    }
}

#[test]
fn twelve_hour_bcd_never_exceeds_23() {
    for h in 1..=12u8 {
        for pm in [false, true] {
            let byte = to_bcd(h) + if pm { 0x80 } else { 0 };
            let got = decode(dt(0x26, 1, 1, byte, 0, 0), 0x00).hour;
            assert_eq!(got, h % 12 + if pm { 12 } else { 0 });
            assert!(got < 24);
        }
    }
}
