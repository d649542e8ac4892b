//! The decisions of the live clock loop: redraw only when the reading
//! changes, and flip the heartbeat dot on every redraw.

use vstd::prelude::*;
use crate::rtc::DateTime;

verus! {

/// One decision of the clock loop: with `last` the reading on screen and
/// `blink` the heartbeat, a fresh reading `now` gives the new reading on
/// screen, the new heartbeat, and the heartbeat to redraw with (when the
/// reading changed).
pub open spec fn tick_step(last: Option<DateTime>, blink: bool, now: DateTime) -> (
    Option<DateTime>,
    bool,
    Option<bool>,
) {
    if last == Some(now) {
        (last, blink, None)
    } else {
        (Some(now), !blink, Some(!blink))
    }
}

/// The state of the live clock loop: the reading on screen, if any, and
/// whether the heartbeat dot is lit.
pub struct Ticker {
    last: Option<DateTime>,
    blink: bool,
}

impl Ticker {
    /// The reading on screen.
    pub closed spec fn last(&self) -> Option<DateTime> {
        self.last
    }

    /// Whether the heartbeat dot is lit.
    pub closed spec fn blink(&self) -> bool {
        self.blink
    }

    /// Nothing on screen yet; the dot is dark.
    pub fn new() -> (t: Ticker)
        ensures
            t.last() == None::<DateTime>,
            !t.blink(),
    {
        Ticker { last: None, blink: false }
    }

    /// Take a fresh reading. When it differs from the reading on screen the
    /// heartbeat flips and is returned, to redraw the panel with; when it is
    /// the same, nothing is to be drawn.
    pub fn tick(&mut self, now: DateTime) -> (redraw: Option<bool>)
        ensures
            (final(self).last(), final(self).blink(), redraw) == tick_step(
                old(self).last(),
                old(self).blink(),
                now,
            ),
    {
        let same = match self.last {
            Some(prev) => prev == now,
            None => false,
        };
        if same {
            None
        } else {
            self.blink = !self.blink;
            self.last = Some(now);
            Some(self.blink)
        }
    }
}

/// A reading is drawn once: handing the loop the same reading again right
/// after it was drawn asks for no redraw and changes nothing.
pub proof fn law_same_reading_is_drawn_once(last: Option<DateTime>, blink: bool, now: DateTime)
    ensures
        ({
            let (l1, b1, _) = tick_step(last, blink, now);
            tick_step(l1, b1, now) == (l1, b1, None::<bool>)
        }),
{
}

/// Each redraw flips the heartbeat: a changed reading lights the dot when
/// it was dark and darkens it when it was lit.
pub proof fn law_redraw_flips_heartbeat(last: Option<DateTime>, blink: bool, now: DateTime)
    requires
        last != Some(now),
    ensures
        tick_step(last, blink, now).2 == Some(!blink),
        tick_step(last, blink, now).1 == !blink,
{
}

} // verus!
