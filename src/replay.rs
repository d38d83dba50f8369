use vstd::prelude::*;

use crate::{Config, InputEvent};

verus! {

/// One recorded input with the milliseconds since the previous one.
#[derive(Copy, Clone, Debug, PartialEq, Eq, Structural)]
pub struct ReplayEvent {
    pub elapsed: u16,
    pub input: InputEvent,
}

/// A recording of a round: its settings, seed and inputs.
#[derive(Clone, Debug)]
pub struct Replay {
    /// milliseconds from start to end
    pub length: u32,
    pub seed: u64,
    pub config: Config,
    pub events: Vec<ReplayEvent>,
    /// time of the last recorded input, in nanoseconds
    pub last: Option<u64>,
}

/// Milliseconds from `from` to `to` (nanoseconds), kept to 16 bits as the format stores them.
pub open spec fn elapsed_millis(from: u64, to: u64) -> u16 {
    (if to >= from { (to - from) / 1_000_000 } else { 0 }) as u16
}

impl Replay {
    pub fn new(config: Config, seed: u64) -> (r: Self)
        ensures
            r.seed == seed,
            r.config == config,
            r.events@.len() == 0,
            r.length == 0,
            r.last is None,
    {
        Self { seed, config, events: Vec::new(), length: 0, last: None }
    }

    /// Starts the clock of the recording at `now`.
    pub fn start(&mut self, now: u64)
        ensures
            final(self).last == Some(now),
            final(self).events@ == old(self).events@,
            final(self).seed == old(self).seed,
    {
        self.last = Some(now);
    }

    /// Records `input` at time `t`, with the milliseconds since the previous input
    /// (or since the start).
    pub fn push(&mut self, input: InputEvent, t: u64)
        requires
            old(self).last is Some,
        ensures
            final(self).last == Some(t),
            final(self).events@ == old(self).events@.push(ReplayEvent { elapsed: elapsed_millis(old(self).last->0, t), input }),
            final(self).seed == old(self).seed,
    {
        let last = match self.last {
            Some(l) => l,
            None => t,
        };
        let elapsed = if t >= last { (t - last) / 1_000_000 } else { 0 };
        self.last = Some(t);
        self.events.push(ReplayEvent { elapsed: elapsed as u16, input });
    }
}

} // verus!
