//! The beat of the music: when a measurement is made. The measurement itself is the caller's.

use vstd::prelude::*;

verus! {

/// How many samples make up a measurement.
pub const WINDOW: usize = 1024;

/// The samples since the last measurement.
#[derive(Debug, Clone, Copy, PartialEq, Eq, Structural)]
pub struct BeatWindow {
    pub n: usize,
}

impl BeatWindow {
    pub open spec fn valid(self) -> bool {
        self.n < WINDOW
    }

    /// The window after one more sample, and whether that completes a measurement.
    pub open spec fn counted(self) -> (BeatWindow, bool) {
        (BeatWindow { n: ((self.n + 1) % WINDOW as int) as usize }, self.n + 1 == WINDOW)
    }

    pub fn new() -> (r: Self)
        ensures
            r == (BeatWindow { n: 0 }),
            r.valid(),
    {
        BeatWindow { n: 0 }
    }

    /// Starts over.
    pub fn reset(&mut self)
        ensures
            *final(self) == (BeatWindow { n: 0 }),
    {
        self.n = 0;
    }

    /// Counts a sample; says whether it completes a measurement.
    pub fn push(&mut self) -> (full: bool)
        requires
            old(self).valid(),
        ensures
            final(self).valid(),
            (*final(self), full) == old(self).counted(),
    {
        if self.n + 1 < WINDOW {
            self.n = self.n + 1;
            false
        } else {
            self.n = 0;
            true
        }
    }
}

/// The window after so many samples.
pub open spec fn after_samples(w: BeatWindow, samples: nat) -> BeatWindow
    decreases samples,
{
    if samples == 0 {
        w
    } else {
        after_samples(w, (samples - 1) as nat).counted().0
    }
}

/// A measurement is made with every 1024th sample, and with no other.
pub proof fn law_measurements(samples: nat)
    ensures
        after_samples(BeatWindow { n: 0 }, samples).n == samples % 1024,
        after_samples(BeatWindow { n: 0 }, samples).counted().1 <==> (samples + 1) % 1024 == 0,
    decreases samples,
{
    if samples > 0 {
        law_measurements((samples - 1) as nat);
    }
}

} // verus!
