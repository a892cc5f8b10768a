//! The tables the APU is built around. They are measurements of the die
//! (taken once, out of the switch-level chip), so the library takes them
//! as data: `Tables` holds every one of them, and `Tables::wf` states
//! what the machinery needs of them.

use vstd::prelude::*;

verus! {

/// The largest frame-sequencer position or period a table may hold; the
/// sequencer's counter then never leaves `u32`.
pub const FRAME_LIMIT: u32 = 0x0100_0000;

/// An LFSR-shaped timer as the die builds two of them: it free-runs
/// from `at_h0`, each tick shifting left with the XOR of the two
/// `taps` fed in, and when it stands at `terminal` the next tick
/// reloads it with `reload[rate]` and clocks its unit.
#[derive(Clone, Copy, Debug)]
pub struct LfsrTimer {
    pub at_h0: u32,
    pub taps: (u8, u8),
    pub terminal: u32,
    pub reload: [u16; 16],
}

impl LfsrTimer {
    /// The taps are shift amounts on a `u32`.
    pub open spec fn wf(self) -> bool {
        self.taps.0 < 32 && self.taps.1 < 32
    }
}

/// Every table the APU reads: the length table (the counter value a
/// `$4003`-style write loads, per 5-bit index), the duty sequences (bit
/// `c` set where the square is high on sequencer step `c`), the frame
/// sequencer's phase rises per mode as (half-steps after the `$4017`
/// write, phase) with the mode's period, the power-on position, the
/// other write parity's jitter, the mode-1 write's immediate clock, and
/// the two LFSR timers. The noise and DMC period tables are the
/// measurements the two timers' reload rows reproduce. The write
/// parity rides along with them.
#[derive(Clone, Debug)]
pub struct Tables {
    pub length: [u8; 32],
    pub noise_period: [u16; 16],
    pub dmc_rate: [u16; 16],
    pub duty: [u8; 4],
    pub frame_4: Vec<(u32, u8)>,
    pub frame_4_period: u32,
    pub frame_5: Vec<(u32, u8)>,
    pub frame_5_period: u32,
    pub frame_power_on: u32,
    pub frame_jitter: u32,
    pub mode1_clock: u32,
    pub noise_timer: LfsrTimer,
    pub dmc_timer: LfsrTimer,
    /// The APU cycle parity on which a `$4017` write restarts the
    /// sequencer at once (`fit::FRAME_WRITE_SHORT_PHASE` as measured;
    /// a host may swap it to prove the parity comparison sees it).
    pub write_short_phase: u64,
}

/// Every position of a frame table stays below `FRAME_LIMIT`.
pub open spec fn frame_table_wf(table: Seq<(u32, u8)>, period: u32) -> bool {
    &&& table.len() > 0
    &&& period <= FRAME_LIMIT
    &&& forall|i: int| 0 <= i < table.len() ==> #[trigger] table[i].0 <= FRAME_LIMIT
}

impl Tables {
    /// What the APU needs of its tables: both frame tables non-empty
    /// with positions and periods below `FRAME_LIMIT`, the power-on
    /// position no later than the 4-step table's first rise, a mode-1
    /// immediate clock of at least the squares' length lag whose delays
    /// fit the APU's `u8` countdowns, and shift-sized timer taps.
    pub open spec fn wf(self) -> bool {
        &&& frame_table_wf(self.frame_4@, self.frame_4_period)
        &&& frame_table_wf(self.frame_5@, self.frame_5_period)
        &&& self.frame_power_on <= self.frame_4@[0].0
        &&& 3 <= self.mode1_clock
        &&& ((self.mode1_clock - 3) % 256) + (self.frame_jitter % 256) + 3 <= 255
        &&& self.noise_timer.wf()
        &&& self.dmc_timer.wf()
    }

    /// Whether the tables meet `wf`: what a host holds measured tables
    /// to before building an APU around them.
    pub fn check(&self) -> (b: bool)
        ensures
            b == self.wf(),
    {
        frame_table_ok(&self.frame_4, self.frame_4_period) && frame_table_ok(&self.frame_5, self.frame_5_period)
            && self.frame_power_on <= self.frame_4[0].0 && 3 <= self.mode1_clock && ((self.mode1_clock - 3) % 256) + (
        self.frame_jitter % 256) + 3 <= 255 && self.noise_timer.taps.0 < 32 && self.noise_timer.taps.1 < 32
            && self.dmc_timer.taps.0 < 32 && self.dmc_timer.taps.1 < 32
    }
}

fn frame_table_ok(table: &Vec<(u32, u8)>, period: u32) -> (b: bool)
    ensures
        b == frame_table_wf(table@, period),
{
    if table.len() == 0 || period > FRAME_LIMIT {
        return false;
    }
    let mut i: usize = 0;
    while i < table.len()
        invariant
            i <= table@.len(),
            forall|j: int| 0 <= j < i ==> #[trigger] table@[j].0 <= FRAME_LIMIT,
        decreases table.len() - i,
    {
        if table[i].0 > FRAME_LIMIT {
            return false;
        }
        i = i + 1;
    }
    true
}

} // verus!
