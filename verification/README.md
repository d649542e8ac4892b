# clock

A verified library for a small bare-metal x86-64 clock that reads the CMOS
real-time clock and shows a live panel on the VGA text screen.

- `src/rtc.rs` — the clock chip's register protocol as a step function
  (`RtcReader`, `read`): poll status register A, read the six counters
  twice, accept them only when both snapshots agree, then decode BCD,
  12/24-hour form and the two-digit year (`decode`). Also the weekday by
  Zeller's congruence (`day_of_week`), proved to agree with the Gregorian
  calendar, and the weekday and month names.
- `src/vga_buffer.rs` — the 80x25 text screen as plain cells: a
  terminal-style `Writer` (cursor on the bottom row, scrolling) and
  positioned drawing (`put_at`, `put_str_at`, `fill`).
- `src/ui.rs` — the clock panel: the static frame and the lines redrawn
  every second, with heap-free formatting into `FmtBuf`.
- `src/live.rs` — the decisions of the live loop: redraw only when the
  reading changes, flipping the heartbeat dot.
- `app/` — the program around the library: port I/O to the clock chip,
  copying the cells to video memory at 0xb8000, the COM1 serial console.
