//! A verified model of a small bare-metal clock: the CMOS real-time-clock
//! decoding logic, the VGA text-mode writer and the clock panel drawn on it.

pub mod rtc;
pub mod vga_buffer;
pub mod ui;
pub mod live;
