use vstd::prelude::*;

use crate::shared_constants::{BLINK_OFF_DELAY_MS, BLINK_ON_DELAY_MS, CELL_COUNT};

verus! {

/// The controller's current presentation phase. Callers request `Solid` or a
/// blinking intent that enters at `BlinkingAndOn`; `BlinkingButOff` is the
/// dark half of the blink cycle and is reached only by timer expiry.
#[derive(Clone, Copy, Debug, PartialEq, Eq, Structural)]
pub enum BlinkMode {
    Solid,
    BlinkingAndOn,
    BlinkingButOff,
}

/// What ended one of the controller's waits: the arrival of a new write
/// request, or the running blink timer expiring. When both resolve in the
/// same instant the loop driving the controller must prefer the write.
#[derive(Clone, Copy, Debug)]
pub enum BlinkEvent {
    Write(BlinkMode, [char; CELL_COUNT]),
    TimerExpired,
}

/// The blink-overlay state machine: the stored characters plus the current
/// phase. Each turn of the driving loop renders `render_chars`, waits for a
/// write request — racing it against a timer of `wait_timeout_ms` if one is
/// due — and feeds the outcome to `handle_event`.
pub struct BlinkController {
    pub mode: BlinkMode,
    pub chars: [char; CELL_COUNT],
}

impl BlinkController {
    /// A fresh controller: solid and blank.
    pub fn new() -> (r: Self)
        ensures
            r.mode is Solid,
            r.chars@.len() == CELL_COUNT,
            forall|i: int| 0 <= i < CELL_COUNT ==> r.chars@[i] == ' ',
    {
        BlinkController { mode: BlinkMode::Solid, chars: [' '; CELL_COUNT] }
    }

    /// What the display must show right now: the stored characters, except
    /// that the dark blink phase shows an all-blank set while keeping the
    /// stored characters for the next lit phase.
    pub fn render_chars(&self) -> (r: [char; CELL_COUNT])
        ensures
            !(self.mode is BlinkingButOff) ==> r == self.chars,
            self.mode is BlinkingButOff ==> forall|i: int| 0 <= i < CELL_COUNT ==> r@[i] == ' ',
    {
        match self.mode {
            BlinkMode::BlinkingButOff => [' '; CELL_COUNT],
            _ => self.chars,
        }
    }

    /// How long the current phase may last before the blink timer flips it:
    /// no timer at all when solid, the asymmetric lit/dark delays otherwise.
    /// A fresh full-length timer starts on every phase entry; no elapsed
    /// time is ever carried over.
    pub fn wait_timeout_ms(&self) -> (r: Option<u64>)
        ensures
            self.mode is Solid ==> r is None,
            self.mode is BlinkingAndOn ==> r == Some(BLINK_ON_DELAY_MS),
            self.mode is BlinkingButOff ==> r == Some(BLINK_OFF_DELAY_MS),
    {
        match self.mode {
            BlinkMode::Solid => None,
            BlinkMode::BlinkingAndOn => Some(BLINK_ON_DELAY_MS),
            BlinkMode::BlinkingButOff => Some(BLINK_OFF_DELAY_MS),
        }
    }

    /// Takes the transition the event dictates: a write request replaces mode
    /// and characters unconditionally, cancelling any running blink phase; a
    /// timer expiry toggles between the two blinking phases and keeps the
    /// stored characters. A timer never fires in `Solid`, which has no timer;
    /// if handed one anyway the state is kept.
    pub fn handle_event(&mut self, event: BlinkEvent)
        ensures
            (match event {
                BlinkEvent::Write(m, c) => final(self).mode == m && final(self).chars == c,
                BlinkEvent::TimerExpired => {
                    &&& final(self).chars == old(self).chars
                    &&& final(self).mode == (match old(self).mode {
                        BlinkMode::Solid => BlinkMode::Solid,
                        BlinkMode::BlinkingAndOn => BlinkMode::BlinkingButOff,
                        BlinkMode::BlinkingButOff => BlinkMode::BlinkingAndOn,
                    })
                },
            }),
    {
        match event {
            BlinkEvent::Write(m, c) => {
                self.mode = m;
                self.chars = c;
            },
            BlinkEvent::TimerExpired => {
                self.mode = match self.mode {
                    BlinkMode::Solid => BlinkMode::Solid,
                    BlinkMode::BlinkingAndOn => BlinkMode::BlinkingButOff,
                    BlinkMode::BlinkingButOff => BlinkMode::BlinkingAndOn,
                };
            },
        }
    }
}

/// The single-slot, overwrite-on-send mailbox through which write requests
/// reach the controller: only the most recent update is ever held, earlier
/// unconsumed updates are lost by design.
pub struct PendingUpdate {
    pub slot: Option<(BlinkMode, [char; CELL_COUNT])>,
}

/// The mailbox after a write: whatever it held is replaced by the new pair.
pub open spec fn written(u: PendingUpdate, mode: BlinkMode, chars: [char; CELL_COUNT]) -> PendingUpdate {
    PendingUpdate { slot: Some((mode, chars)) }
}

impl PendingUpdate {
    /// An empty mailbox.
    pub fn new() -> (r: Self)
        ensures
            r.slot is None,
    {
        PendingUpdate { slot: None }
    }

    /// Stores a write request, overwriting any unconsumed one.
    pub fn write(&mut self, mode: BlinkMode, chars: [char; CELL_COUNT])
        ensures
            *final(self) == written(*old(self), mode, chars),
    {
        self.slot = Some((mode, chars));
    }

    /// Drains the mailbox, handing out the latest write if one is pending.
    pub fn take(&mut self) -> (r: Option<(BlinkMode, [char; CELL_COUNT])>)
        ensures
            r == old(self).slot,
            final(self).slot is None,
    {
        let r = self.slot;
        self.slot = None;
        r
    }
}

/// Law: the mailbox keeps only the latest write. After two back-to-back
/// writes, the mailbox is exactly as if only the second had happened, so a
/// consumer can only ever take the second pair — the first is never seen,
/// hence never rendered.
pub proof fn lemma_last_write_wins(
    u: PendingUpdate,
    m1: BlinkMode,
    c1: [char; CELL_COUNT],
    m2: BlinkMode,
    c2: [char; CELL_COUNT],
)
    ensures
        written(written(u, m1, c1), m2, c2) == written(u, m2, c2),
        written(written(u, m1, c1), m2, c2).slot == Some((m2, c2)),
{
}

} // verus!
