//! The animation sequencer: which frame of a multi-frame container is shown,
//! advanced by ticks that the host's display loop drives with timestamps.

use vstd::prelude::*;

verus! {

/// Display delay used for a frame whose stored delay is 0.
pub const DEFAULT_DELAY_MS: u32 = 100;

/// How long a frame with stored delay `delay_ms` is shown.
pub open spec fn effective_delay_spec(delay_ms: u32) -> u32 {
    if delay_ms > 0 { delay_ms } else { DEFAULT_DELAY_MS }
}

/// How long a frame with stored delay `delay_ms` is shown: 0 means the default.
pub fn effective_delay(delay_ms: u32) -> (r: u32)
    ensures
        r == effective_delay_spec(delay_ms),
{
    if delay_ms > 0 { delay_ms } else { DEFAULT_DELAY_MS }
}

/// Milliseconds from `since` to `now`; 0 if the clock went backwards.
pub open spec fn elapsed_ms(since: u64, now: u64) -> u64 {
    if now >= since { (now - since) as u64 } else { 0 }
}

/// Playback state over the delays of a container's frames. Playback wraps
/// from the last frame to the first for ever: a container's loop count of 0
/// means exactly that, and finite loop counts are not interpreted.
pub struct Sequencer {
    pub delays: Vec<u32>,
    pub current_frame: usize,
    pub last_advance_ms: u64,
    pub playing: bool,
}

impl Sequencer {
    /// There is a frame, and the current index names one.
    pub open spec fn wf(&self) -> bool {
        self.delays@.len() >= 1 && self.current_frame < self.delays@.len()
    }

    /// The frame after `i`, wrapping to the first.
    pub open spec fn next_index(&self, i: int) -> int {
        (i + 1) % (self.delays@.len() as int)
    }

    /// Starts at the first frame at time `now_ms`; plays when there is more
    /// than one frame.
    pub fn new(delays: Vec<u32>, now_ms: u64) -> (r: Self)
        requires
            delays@.len() >= 1,
        ensures
            r.wf(),
            r.delays@ == delays@,
            r.current_frame == 0,
            r.last_advance_ms == now_ms,
            r.playing == (delays@.len() > 1),
    {
        let playing = delays.len() > 1;
        Sequencer { delays, current_frame: 0, last_advance_ms: now_ms, playing }
    }

    /// One tick at time `now_ms`. While playing with more than one frame, once
    /// the current frame's effective delay has elapsed since the last advance,
    /// moves to the next frame (wrapping) and restarts the timer there.
    /// Returns whether the frame changed.
    pub fn tick(&mut self, now_ms: u64) -> (advanced: bool)
        requires
            old(self).wf(),
        ensures
            final(self).wf(),
            final(self).delays@ == old(self).delays@,
            final(self).playing == old(self).playing,
            advanced == (old(self).playing && old(self).delays@.len() > 1
                && elapsed_ms(old(self).last_advance_ms, now_ms)
                >= effective_delay_spec(old(self).delays@[old(self).current_frame as int])),
            advanced ==> final(self).current_frame == old(self).next_index(old(self).current_frame as int)
                && final(self).last_advance_ms == now_ms,
            !advanced ==> final(self).current_frame == old(self).current_frame
                && final(self).last_advance_ms == old(self).last_advance_ms,
    {
        if !self.playing || self.delays.len() <= 1 {
            return false;
        }
        let delay = effective_delay(self.delays[self.current_frame]);
        let elapsed: u64 = if now_ms >= self.last_advance_ms { now_ms - self.last_advance_ms } else { 0 };
        if elapsed >= delay as u64 {
            self.current_frame = (self.current_frame + 1) % self.delays.len();
            self.last_advance_ms = now_ms;
            true
        } else {
            false
        }
    }

    /// Shows the next frame (wrapping) and restarts the timer; playing is unchanged.
    pub fn next(&mut self, now_ms: u64)
        requires
            old(self).wf(),
        ensures
            final(self).wf(),
            final(self).delays@ == old(self).delays@,
            final(self).playing == old(self).playing,
            final(self).current_frame == old(self).next_index(old(self).current_frame as int),
            final(self).last_advance_ms == now_ms,
    {
        let len = self.delays.len();
        self.current_frame = (self.current_frame + 1) % len;
        self.last_advance_ms = now_ms;
    }

    /// Shows the previous frame (wrapping) and restarts the timer; playing is unchanged.
    pub fn previous(&mut self, now_ms: u64)
        requires
            old(self).wf(),
        ensures
            final(self).wf(),
            final(self).delays@ == old(self).delays@,
            final(self).playing == old(self).playing,
            final(self).current_frame == (if old(self).current_frame == 0 {
                old(self).delays@.len() - 1
            } else {
                old(self).current_frame - 1
            }),
            final(self).last_advance_ms == now_ms,
    {
        if self.current_frame == 0 {
            self.current_frame = self.delays.len() - 1;
        } else {
            self.current_frame = self.current_frame - 1;
        }
        self.last_advance_ms = now_ms;
    }

    /// Pauses a playing sequence or resumes a paused one.
    pub fn toggle_playing(&mut self)
        requires
            old(self).wf(),
        ensures
            final(self).wf(),
            final(self).delays@ == old(self).delays@,
            final(self).playing == !old(self).playing,
            final(self).current_frame == old(self).current_frame,
            final(self).last_advance_ms == old(self).last_advance_ms,
    {
        self.playing = !self.playing;
    }

    /// How long the current frame is shown.
    pub fn current_delay(&self) -> (r: u32)
        requires
            self.wf(),
        ensures
            r == effective_delay_spec(self.delays@[self.current_frame as int]),
    {
        effective_delay(self.delays[self.current_frame])
    }
}

} // verus!
