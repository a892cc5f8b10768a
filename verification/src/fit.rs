//! The fitted half-step offsets of the APU model, each measured
//! against the chip's output codes and pinned.

use vstd::prelude::*;

verus! {
/// The frame counter's position as the `$4017` write's own frame
/// begins.
pub const FRAME_WRITE_LAG: u32 = 0;
/// The APU cycle parity on which a `$4017` write restarts the
/// sequencer at once: a write whose frame index has this residue
/// modulo four; the other parity holds the sequencer for the
/// tables' jitter first.
pub const FRAME_WRITE_SHORT_PHASE: u64 = 2;
/// Which of the four half-steps a square's timer ticks on.
pub const SQ_TICK_PHASE: u64 = 3;
pub const TRI_TICK_PHASE: u64 = 0;
/// The two LFSR timers tick on the other phase of the squares' grain.
pub const LFSR_TICK_PHASE: u64 = 1;
/// Half-steps from the tick that lands a timer on its terminal to
/// the unit's clock: the noise shift and the DMC completion.
pub const NOISE_UNIT_LAG: u8 = 3;
pub const DMC_UNIT_LAG: u8 = 3;
/// Half-steps a square's (and the noise's) output code lags the
/// state it is computed from.
pub const SQ_OUT_LAG: u64 = 2;
/// Half-steps from a frame phase's rise to its effect on the
/// envelopes, lengths and sweeps.
pub const FRAME_EFFECT_LAG: u8 = 1;
/// The same for the triangle's linear counter.
pub const TRI_FRAME_LAG: u8 = 3;
/// The squares' length counters' lag behind a half-frame rise.
pub const SQ_LENGTH_LAG: u8 = 3;

} // verus!
