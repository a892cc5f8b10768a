//! The APU, authored around the measured tables: every unit counts CPU
//! half-steps (the pin contract's h). A square's sequencer steps every
//! 4(t+1) half-steps, the triangle's every 2(t+1), the noise LFSR and
//! the DMC shifter on their LFSR timers' periods, and the frame
//! sequencer on its table's positions. Where a unit's action sits
//! inside its period is a fitted constant (`fit`).
//!
//! Each unit's transitions are stated as spec functions on the unit
//! itself (`written`, `quartered`, `halved`, `ticked`, ...), and each
//! executable method is proved to perform exactly its transition. The
//! laws the model keeps stand at the end of the file.

use vstd::prelude::*;
use crate::tables::{LfsrTimer, Tables, FRAME_LIMIT};
use crate::fit;

verus! {

/// The frame counter's position at the pin contract's h=0, as
/// half-steps already elapsed toward the first phase rise: the 4-step
/// table's first rise less the power-on position, plus the one frame
/// that has elapsed by the first `half_step`.
pub fn frame_pos_at_h0(t: &Tables) -> (pos: u32)
    requires
        t.wf(),
    ensures
        pos == t.frame_4@[0].0 - t.frame_power_on + 1,
{
    t.frame_4[0].0 - t.frame_power_on + 1
}

/// The bus as the DMC's sample fetch (and the DMA's reads) see it.
/// `reads` is the log of the reads made so far, each address with the
/// byte it returned: every read appends its own entry and nothing else.
pub trait SampleBus {
    spec fn reads(&self) -> Seq<(u16, u8)>;

    fn read(&mut self, addr: u16) -> (b: u8)
        ensures
            final(self).reads() == old(self).reads().push((addr, b)),
    ;
}

/// A flat memory image as the sample bus: the byte at the address, and
/// zero past the end of the image, with the log of the reads made.
pub struct SampleImage {
    pub bytes: Vec<u8>,
    log: Ghost<Seq<(u16, u8)>>,
}

impl SampleImage {
    /// The image's bytes.
    pub closed spec fn image(self) -> Seq<u8> {
        self.bytes@
    }

    /// The byte a read of `a` returns.
    pub closed spec fn byte_at(self, a: u16) -> u8 {
        if (a as int) < self.bytes@.len() {
            self.bytes@[a as int]
        } else {
            0
        }
    }

    /// The image over `bytes`, with no reads made yet.
    pub fn new(bytes: Vec<u8>) -> (s: SampleImage)
        ensures
            s.image() == bytes@,
            s.reads() == Seq::<(u16, u8)>::empty(),
    {
        SampleImage { bytes, log: Ghost(Seq::empty()) }
    }
}

impl SampleBus for SampleImage {
    closed spec fn reads(&self) -> Seq<(u16, u8)> {
        self.log@
    }

    fn read(&mut self, addr: u16) -> (b: u8)
        ensures
            b == old(self).byte_at(addr),
            final(self).image() == old(self).image(),
    {
        let b = if (addr as usize) < self.bytes.len() {
            self.bytes[addr as usize]
        } else {
            0
        };
        self.log = Ghost(self.log@.push((addr, b)));
        b
    }
}

// ---------------------------------------------------------------------
// The LFSR-shaped timer.
// ---------------------------------------------------------------------

/// One of the die's two LFSR-shaped timers at run time (`LfsrTimer` is
/// the measurement; this is the machine). `pending` counts down to the
/// unit's clock after a terminal tick.
#[derive(Clone, Copy, Debug)]
pub struct Timer {
    t: u32,
    mask: u32,
    pending: u8,
    lag: u8,
    shape: LfsrTimer,
}

impl Timer {
    pub closed spec fn wf(self) -> bool {
        self.shape.wf()
    }

    /// The free-running successor: shift left under the mask, the XOR
    /// of the two taps fed in at bit 0.
    pub closed spec fn shifted(self) -> u32 {
        ((self.t << 1u32) & self.mask) | (((self.t >> self.shape.taps.0) & 1) ^ ((self.t
            >> self.shape.taps.1) & 1))
    }

    /// One tick: at the terminal the reload row for `rate` is loaded;
    /// elsewhere the register shifts, and landing on the terminal arms
    /// the unit's clock `lag` half-steps on.
    pub closed spec fn ticked(self, rate: u8) -> Timer {
        if self.t == self.shape.terminal {
            Timer { t: self.shape.reload[(rate & 15) as int] as u32, ..self }
        } else {
            let n = self.shifted();
            Timer { t: n, pending: if n == self.shape.terminal { self.lag } else { self.pending }, ..self }
        }
    }

    /// The register's value.
    pub closed spec fn state(self) -> u32 {
        self.t
    }

    /// Half-steps until the unit's clock, zero when none is due.
    pub closed spec fn countdown(self) -> u8 {
        self.pending
    }

    /// The half-steps from a terminal tick to the unit's clock.
    pub closed spec fn unit_lag(self) -> u8 {
        self.lag
    }

    pub closed spec fn shape_of(self) -> LfsrTimer {
        self.shape
    }

    /// The timer after `k` half-steps of its countdown and no tick.
    pub closed spec fn counted_times(self, k: nat) -> Timer
        decreases k,
    {
        if k == 0 {
            self
        } else {
            self.counted_times((k - 1) as nat).counted().0
        }
    }

    /// One half-step of the countdown, and whether the unit clocks on it.
    pub closed spec fn counted(self) -> (Timer, bool) {
        if self.pending > 0 {
            (Timer { pending: (self.pending - 1) as u8, ..self }, self.pending == 1)
        } else {
            (self, false)
        }
    }

    pub closed spec fn built(shape: LfsrTimer, bits: u32, lag: u8) -> Timer {
        Timer { t: shape.at_h0, mask: ((1u32 << bits) - 1) as u32, pending: 0, lag, shape }
    }

    fn new(shape: LfsrTimer, bits: u32, lag: u8) -> (r: Timer)
        requires
            shape.wf(),
            1 <= bits < 32,
        ensures
            r == Timer::built(shape, bits, lag),
            r.wf(),
    {
        assert(1u32 << bits >= 1) by (bit_vector)
            requires
                1 <= bits < 32,
        ;
        Timer { t: shape.at_h0, mask: (1u32 << bits) - 1, pending: 0, lag, shape }
    }

    fn tick(&mut self, rate: u8)
        requires
            old(self).wf(),
        ensures
            *final(self) == old(self).ticked(rate),
            final(self).wf(),
    {
        if self.t == self.shape.terminal {
            assert((rate & 15) < 16) by (bit_vector);
            self.t = self.shape.reload[(rate & 15) as usize] as u32;
        } else {
            let (i, j) = self.shape.taps;
            let fb = ((self.t >> i) & 1) ^ ((self.t >> j) & 1);
            self.t = ((self.t << 1u32) & self.mask) | fb;
            if self.t == self.shape.terminal {
                self.pending = self.lag;
            }
        }
    }

    /// Every half-step: true on the one where the unit clocks.
    fn half_step(&mut self) -> (clocked: bool)
        ensures
            (*final(self), clocked) == old(self).counted(),
    {
        if self.pending > 0 {
            self.pending = self.pending - 1;
            return self.pending == 0;
        }
        false
    }
}

// ---------------------------------------------------------------------
// The envelope.
// ---------------------------------------------------------------------

#[derive(Clone, Copy, Debug)]
pub struct Envelope {
    start: bool,
    divider: u8,
    decay: u8,
    period: u8,
    loop_: bool,
    constant: bool,
}

impl Envelope {
    pub closed spec fn wf(self) -> bool {
        self.decay <= 15 && self.period <= 15 && self.divider <= 15
    }

    pub closed spec fn power_on() -> Envelope {
        Envelope { start: false, divider: 0, decay: 0, period: 0, loop_: false, constant: false }
    }

    /// The register's low six bits: period (and constant volume), the
    /// constant flag, the loop flag.
    pub closed spec fn written(self, v: u8) -> Envelope {
        Envelope { period: v & 0x0f, constant: v & 0x10 != 0, loop_: v & 0x20 != 0, ..self }
    }

    /// The quarter-frame clock: a pending start reloads the decay to 15;
    /// otherwise the divider counts down through the period, and each
    /// time it runs out the decay steps down, wrapping to 15 if looping.
    pub closed spec fn quartered(self) -> Envelope {
        if self.start {
            Envelope { start: false, decay: 15, divider: self.period, ..self }
        } else if self.divider == 0 {
            Envelope {
                divider: self.period,
                decay: if self.decay > 0 {
                    (self.decay - 1) as u8
                } else if self.loop_ {
                    15
                } else {
                    0
                },
                ..self
            }
        } else {
            Envelope { divider: (self.divider - 1) as u8, ..self }
        }
    }

    /// The envelope after `k` quarter-frame clocks and nothing else.
    pub closed spec fn quartered_times(self, k: nat) -> Envelope
        decreases k,
    {
        if k == 0 {
            self
        } else {
            self.quartered_times((k - 1) as nat).quartered()
        }
    }

    /// The decay counter.
    pub closed spec fn decay_level(self) -> u8 {
        self.decay
    }

    /// The period (also the constant volume).
    pub closed spec fn period_value(self) -> u8 {
        self.period
    }

    pub closed spec fn loops(self) -> bool {
        self.loop_
    }

    /// Whether the envelope plays its period as a constant volume.
    pub closed spec fn is_constant(self) -> bool {
        self.constant
    }

    pub closed spec fn started(self) -> Envelope {
        Envelope { start: true, ..self }
    }

    pub closed spec fn level(self) -> u8 {
        if self.constant {
            self.period
        } else {
            self.decay
        }
    }

    fn new() -> (e: Envelope)
        ensures
            e == Envelope::power_on(),
            e.wf(),
    {
        Envelope { start: false, divider: 0, decay: 0, period: 0, loop_: false, constant: false }
    }

    fn write(&mut self, v: u8)
        requires
            old(self).wf(),
        ensures
            *final(self) == old(self).written(v),
            final(self).wf(),
    {
        assert(v & 0x0f <= 15) by (bit_vector);
        self.period = v & 0x0f;
        self.constant = v & 0x10 != 0;
        self.loop_ = v & 0x20 != 0;
    }

    fn quarter(&mut self)
        requires
            old(self).wf(),
        ensures
            *final(self) == old(self).quartered(),
            final(self).wf(),
    {
        if self.start {
            self.start = false;
            self.decay = 15;
            self.divider = self.period;
        } else if self.divider == 0 {
            self.divider = self.period;
            if self.decay > 0 {
                self.decay = self.decay - 1;
            } else if self.loop_ {
                self.decay = 15;
            }
        } else {
            self.divider = self.divider - 1;
        }
    }

    fn volume(&self) -> (v: u8)
        ensures
            v == self.level(),
    {
        if self.constant {
            self.period
        } else {
            self.decay
        }
    }
}

// ---------------------------------------------------------------------
// The length counter.
// ---------------------------------------------------------------------

/// The length counter as the die holds it: loaded with the table's n-1,
/// expiring on the clock that would take it below zero, so a channel
/// plays for n half-frame clocks.
#[derive(Clone, Copy, Debug)]
pub struct Length {
    count: u8,
    expired: bool,
    halt: bool,
    enabled: bool,
}

impl Length {
    pub closed spec fn power_on() -> Length {
        Length { count: 0, expired: false, halt: false, enabled: false }
    }

    pub closed spec fn loaded(self, idx: u8, table: [u8; 32]) -> Length {
        if self.enabled {
            Length { count: table[(idx & 31) as int], expired: false, ..self }
        } else {
            self
        }
    }

    pub closed spec fn halved(self) -> Length {
        if !self.halt && !self.expired {
            if self.count == 0 {
                Length { expired: true, ..self }
            } else {
                Length { count: (self.count - 1) as u8, ..self }
            }
        } else {
            self
        }
    }

    pub closed spec fn switched(self, on: bool) -> Length {
        if on {
            Length { enabled: true, ..self }
        } else {
            Length { enabled: false, count: 0, expired: true, ..self }
        }
    }

    pub closed spec fn halted(self, halt: bool) -> Length {
        Length { halt, ..self }
    }

    pub closed spec fn is_playing(self) -> bool {
        !self.expired
    }

    /// The count.
    pub closed spec fn count_value(self) -> u8 {
        self.count
    }

    pub closed spec fn is_enabled(self) -> bool {
        self.enabled
    }

    pub closed spec fn is_halted(self) -> bool {
        self.halt
    }

    /// The counter after `k` half-frame clocks and nothing else.
    pub closed spec fn halved_times(self, k: nat) -> Length
        decreases k,
    {
        if k == 0 {
            self
        } else {
            self.halved_times((k - 1) as nat).halved()
        }
    }

    fn new() -> (l: Length)
        ensures
            l == Length::power_on(),
    {
        Length { count: 0, expired: false, halt: false, enabled: false }
    }

    fn load(&mut self, idx: u8, table: &[u8; 32])
        ensures
            *final(self) == old(self).loaded(idx, *table),
    {
        if self.enabled {
            assert((idx & 31) < 32) by (bit_vector);
            self.count = table[(idx & 31) as usize];
            self.expired = false;
        }
    }

    fn half(&mut self)
        ensures
            *final(self) == old(self).halved(),
    {
        if !self.halt && !self.expired {
            if self.count == 0 {
                self.expired = true;
            } else {
                self.count = self.count - 1;
            }
        }
    }

    fn set_enabled(&mut self, on: bool)
        ensures
            *final(self) == old(self).switched(on),
    {
        self.enabled = on;
        if !on {
            self.count = 0;
            self.expired = true;
        }
    }

    fn playing(&self) -> (p: bool)
        ensures
            p == self.is_playing(),
    {
        !self.expired
    }
}


// ---------------------------------------------------------------------
// The squares.
// ---------------------------------------------------------------------

#[derive(Clone, Copy, Debug)]
pub struct Square {
    second: bool,
    duty: u8,
    env: Envelope,
    len: Length,
    period: u16,
    timer: u32,
    /// A low-byte write makes the next tick a reload (t = p) instead of
    /// a decrement, with no step.
    reload_pending: bool,
    step: u8,
    swp_enabled: bool,
    swp_period: u8,
    swp_negate: bool,
    swp_shift: u8,
    swp_divider: u8,
    swp_reload: bool,
}

impl Square {
    pub closed spec fn wf(self) -> bool {
        &&& self.env.wf()
        &&& self.duty < 4
        &&& self.period <= 0x7ff
        &&& self.timer <= 0x7ff
        &&& self.step < 8
        &&& self.swp_period <= 7
        &&& self.swp_shift <= 7
        &&& self.swp_divider <= 7
    }

    pub closed spec fn power_on(second: bool) -> Square {
        Square {
            second,
            duty: 0,
            env: Envelope::power_on(),
            len: Length::power_on(),
            period: 0,
            timer: 0,
            reload_pending: false,
            step: 0,
            swp_enabled: false,
            swp_period: 0,
            swp_negate: false,
            swp_shift: 0,
            swp_divider: 0,
            swp_reload: false,
        }
    }

    /// A write to the channel's register `reg & 3`: duty, envelope and
    /// halt; the sweep; the period's low byte (the next tick reloads);
    /// the period's high bits with the length load, the envelope start
    /// and the sequencer restart.
    pub closed spec fn written(self, reg: u8, v: u8, length: [u8; 32]) -> Square {
        if reg & 3 == 0 {
            Square { duty: v >> 6u8, env: self.env.written(v), len: self.len.halted(v & 0x20 != 0), ..self }
        } else if reg & 3 == 1 {
            Square {
                swp_enabled: v & 0x80 != 0,
                swp_period: (v >> 4u8) & 7,
                swp_negate: v & 0x08 != 0,
                swp_shift: v & 7,
                swp_reload: true,
                ..self
            }
        } else if reg & 3 == 2 {
            Square { period: (self.period & 0x700) | (v as u16), reload_pending: true, ..self }
        } else {
            Square {
                period: (self.period & 0xff) | (((v as u16) & 7) << 8u16),
                len: self.len.loaded(v >> 3u8, length),
                env: self.env.started(),
                step: 0,
                ..self
            }
        }
    }

    /// The sweep's target: the period plus or minus the period shifted
    /// right; negated, square 0 subtracts one more (its ones' complement)
    /// where square 1 does not (its two's complement).
    pub closed spec fn sweep_target(self) -> int {
        let change = (self.period >> self.swp_shift) as int;
        if self.swp_negate {
            self.period - change - (if self.second { 0int } else { 1int })
        } else {
            self.period + change
        }
    }

    /// The duty index, 0..4.
    pub closed spec fn duty_index(self) -> u8 {
        self.duty
    }

    /// The channel's envelope.
    pub closed spec fn envelope(self) -> Envelope {
        self.env
    }

    /// The channel's length counter.
    pub closed spec fn length(self) -> Length {
        self.len
    }

    /// The sweep's divider.
    pub closed spec fn sweep_divider(self) -> u8 {
        self.swp_divider
    }

    /// The sweep's enable, its divider period, and whether a sweep write
    /// asked for a divider reload.
    pub closed spec fn sweep_setup(self) -> (bool, u8, bool) {
        (self.swp_enabled, self.swp_period, self.swp_reload)
    }

    /// Which of the two squares this is (square 1 is the second).
    pub closed spec fn is_second(self) -> bool {
        self.second
    }

    /// The sweep's inputs: the period, the shift, the negate flag.
    pub closed spec fn sweep_inputs(self) -> (u16, u8, bool) {
        (self.period, self.swp_shift, self.swp_negate)
    }

    pub closed spec fn is_muted(self) -> bool {
        self.period < 8 || self.sweep_target() > 0x7ff
    }

    /// The half-frame clock's sweep half: when the divider runs out with
    /// the sweep enabled, a nonzero shift, the channel unmuted and the
    /// target not negative, the period becomes the target; the divider
    /// reloads when it runs out or a sweep write asked for it.
    pub closed spec fn swept(self) -> Square {
        let moved = self.swp_divider == 0 && self.swp_enabled && self.swp_shift > 0 && !self.is_muted()
            && self.sweep_target() >= 0;
        let period = if moved { self.sweep_target() as u16 } else { self.period };
        if self.swp_divider == 0 || self.swp_reload {
            Square { period, swp_divider: self.swp_period, swp_reload: false, ..self }
        } else {
            Square { period, swp_divider: (self.swp_divider - 1) as u8, ..self }
        }
    }

    /// A timer tick: a pending reload loads the period; otherwise the
    /// timer counts down, and on reaching zero reloads and steps the
    /// sequencer down one (held while the period is zero).
    pub closed spec fn ticked(self) -> Square {
        if self.reload_pending {
            Square { reload_pending: false, timer: self.period as u32, ..self }
        } else if self.timer == 0 {
            Square {
                timer: self.period as u32,
                step: if self.period != 0 { ((self.step + 7) % 8) as u8 } else { self.step },
                ..self
            }
        } else {
            Square { timer: (self.timer - 1) as u32, ..self }
        }
    }

    /// The square after `k` timer ticks and nothing else.
    #[verifier::opaque]
    pub closed spec fn ticked_times(self, k: nat) -> Square
        decreases k,
    {
        if k == 0 {
            self
        } else {
            self.ticked().ticked_times((k - 1) as nat)
        }
    }

    /// Whether the next tick reloads the timer (a low-byte write asked).
    pub closed spec fn reload_due(self) -> bool {
        self.reload_pending
    }

    /// The timer's count.
    pub closed spec fn timer_count(self) -> u32 {
        self.timer
    }

    /// The sequencer's step, 0..8.
    pub closed spec fn sequencer_step(self) -> u8 {
        self.step
    }

    pub closed spec fn is_high(self, duty: [u8; 4]) -> bool {
        (duty[self.duty as int] >> self.step) & 1 != 0
    }

    /// The channel's 4-bit code: the envelope's level on a high step of
    /// a playing, unmuted channel, else silence.
    pub closed spec fn code(self, duty: [u8; 4]) -> u8 {
        if self.is_high(duty) && self.len.is_playing() && !self.is_muted() {
            self.env.level()
        } else {
            0
        }
    }

    fn new(second: bool) -> (s: Square)
        ensures
            s == Square::power_on(second),
            s.wf(),
    {
        Square {
            second,
            duty: 0,
            env: Envelope::new(),
            len: Length::new(),
            period: 0,
            timer: 0,
            reload_pending: false,
            step: 0,
            swp_enabled: false,
            swp_period: 0,
            swp_negate: false,
            swp_shift: 0,
            swp_divider: 0,
            swp_reload: false,
        }
    }

    fn write(&mut self, reg: u8, v: u8, length: &[u8; 32])
        requires
            old(self).wf(),
        ensures
            *final(self) == old(self).written(reg, v, *length),
            final(self).wf(),
    {
        let r = reg & 3;
        if r == 0 {
            assert(v >> 6u8 < 4) by (bit_vector);
            self.duty = v >> 6u8;
            self.env.write(v);
            self.len.halt = v & 0x20 != 0;
        } else if r == 1 {
            assert((v >> 4u8) & 7 <= 7 && v & 7 <= 7) by (bit_vector);
            self.swp_enabled = v & 0x80 != 0;
            self.swp_period = (v >> 4u8) & 7;
            self.swp_negate = v & 0x08 != 0;
            self.swp_shift = v & 7;
            self.swp_reload = true;
        } else if r == 2 {
            let p = self.period;
            assert((p & 0x700) | (v as u16) <= 0x7ff) by (bit_vector);
            self.period = (self.period & 0x700) | (v as u16);
            self.reload_pending = true;
        } else {
            let p = self.period;
            assert((p & 0xff) | (((v as u16) & 7) << 8u16) <= 0x7ff) by (bit_vector);
            self.period = (self.period & 0xff) | (((v as u16) & 7) << 8u16);
            self.len.load(v >> 3u8, length);
            self.env.start = true;
            self.step = 0;
        }
    }

    fn target(&self) -> (t: i32)
        requires
            self.wf(),
        ensures
            t == self.sweep_target(),
    {
        let (p, sh) = (self.period, self.swp_shift);
        assert(p >> sh <= p) by (bit_vector);
        let change = (self.period >> self.swp_shift) as i32;
        if self.swp_negate {
            self.period as i32 - change - if self.second { 0 } else { 1 }
        } else {
            self.period as i32 + change
        }
    }

    fn muted(&self) -> (m: bool)
        requires
            self.wf(),
        ensures
            m == self.is_muted(),
    {
        self.period < 8 || self.target() > 0x7ff
    }

    /// The half-frame clock's sweep half; the length counter is clocked
    /// apart (`fit::SQ_LENGTH_LAG`).
    fn half(&mut self)
        requires
            old(self).wf(),
        ensures
            *final(self) == old(self).swept(),
            final(self).wf(),
    {
        let t = self.target();
        if self.swp_divider == 0 && self.swp_enabled && self.swp_shift > 0 && !self.muted() && t >= 0 {
            self.period = t as u16;
        }
        if self.swp_divider == 0 || self.swp_reload {
            self.swp_divider = self.swp_period;
            self.swp_reload = false;
        } else {
            self.swp_divider = self.swp_divider - 1;
        }
    }

    /// Every 4 half-steps: the timer holds p, counts to 0, and the
    /// reload steps the sequencer, p+1 ticks per step.
    fn tick(&mut self)
        requires
            old(self).wf(),
        ensures
            *final(self) == old(self).ticked(),
            final(self).wf(),
    {
        if self.reload_pending {
            self.reload_pending = false;
            self.timer = self.period as u32;
        } else if self.timer == 0 {
            self.timer = self.period as u32;
            if self.period != 0 {
                let s = self.step;
                assert(((s + 7) as u8) & 7u8 == ((s + 7) % 8) as u8) by (bit_vector)
                    requires
                        s < 8,
                ;
                self.step = (self.step + 7) & 7;
            }
        } else {
            self.timer = self.timer - 1;
        }
    }

    fn out(&self, duty: &[u8; 4]) -> (c: u8)
        requires
            self.wf(),
        ensures
            c == self.code(*duty),
    {
        let high = (duty[self.duty as usize] >> self.step) & 1 != 0;
        if high && self.len.playing() && !self.muted() {
            self.env.volume()
        } else {
            0
        }
    }
}

// ---------------------------------------------------------------------
// The triangle.
// ---------------------------------------------------------------------

#[derive(Clone, Copy, Debug)]
pub struct Triangle {
    len: Length,
    control: bool,
    lin_reload_value: u8,
    lin: u8,
    lin_reload: bool,
    period: u16,
    timer: u32,
    reload_pending: bool,
    step: u8,
}

impl Triangle {
    pub closed spec fn wf(self) -> bool {
        &&& self.lin_reload_value <= 0x7f
        &&& self.lin <= 0x7f
        &&& self.period <= 0x7ff
        &&& self.timer <= 0x7ff
        &&& self.step < 32
    }

    pub closed spec fn power_on() -> Triangle {
        Triangle {
            len: Length::power_on(),
            control: false,
            lin_reload_value: 0,
            lin: 0,
            lin_reload: false,
            period: 0,
            timer: 0,
            reload_pending: false,
            step: 0,
        }
    }

    /// A write to register `reg & 3`: control (the length halt) and the
    /// linear reload value; the period's low byte (the next tick
    /// reloads); the high bits with the length load and the linear
    /// reload flag. Register 1 is not the triangle's.
    pub closed spec fn written(self, reg: u8, v: u8, length: [u8; 32]) -> Triangle {
        if reg & 3 == 0 {
            Triangle {
                control: v & 0x80 != 0,
                len: self.len.halted(v & 0x80 != 0),
                lin_reload_value: v & 0x7f,
                ..self
            }
        } else if reg & 3 == 2 {
            Triangle { period: (self.period & 0x700) | (v as u16), reload_pending: true, ..self }
        } else if reg & 3 == 3 {
            Triangle {
                period: (self.period & 0xff) | (((v as u16) & 7) << 8u16),
                len: self.len.loaded(v >> 3u8, length),
                lin_reload: true,
                ..self
            }
        } else {
            self
        }
    }

    /// The quarter-frame clock of the linear counter: reloaded while the
    /// reload flag stands, else counted down to zero; the flag clears
    /// unless the control bit holds it.
    pub closed spec fn quartered(self) -> Triangle {
        let lin = if self.lin_reload {
            self.lin_reload_value
        } else if self.lin > 0 {
            (self.lin - 1) as u8
        } else {
            0
        };
        Triangle { lin, lin_reload: if self.control { self.lin_reload } else { false }, ..self }
    }

    /// A timer tick: the sequencer steps up on a reload only while both
    /// counters allow and the period is nonzero.
    pub closed spec fn ticked(self) -> Triangle {
        if self.reload_pending {
            Triangle { reload_pending: false, timer: self.period as u32, ..self }
        } else if self.timer == 0 {
            Triangle {
                timer: self.period as u32,
                step: if self.lin > 0 && self.len.is_playing() && self.period != 0 {
                    ((self.step + 1) % 32) as u8
                } else {
                    self.step
                },
                ..self
            }
        } else {
            Triangle { timer: (self.timer - 1) as u32, ..self }
        }
    }

    /// The channel's length counter.
    pub closed spec fn tri_length(self) -> Length {
        self.len
    }

    /// The linear counter: its control bit, its reload flag, its count,
    /// and its reload value.
    pub closed spec fn linear(self) -> (bool, bool, u8, u8) {
        (self.control, self.lin_reload, self.lin, self.lin_reload_value)
    }

    /// The triangle after `k` timer ticks and nothing else.
    #[verifier::opaque]
    pub closed spec fn ticked_times(self, k: nat) -> Triangle
        decreases k,
    {
        if k == 0 {
            self
        } else {
            self.ticked().ticked_times((k - 1) as nat)
        }
    }

    /// Whether the next tick reloads the timer (a low-byte write asked).
    pub closed spec fn reload_due(self) -> bool {
        self.reload_pending
    }

    /// The timer's count.
    pub closed spec fn timer_count(self) -> u32 {
        self.timer
    }

    /// The period.
    pub closed spec fn period_value(self) -> u16 {
        self.period
    }

    /// Whether both counters let the sequencer move: the linear counter
    /// nonzero and the length playing.
    pub closed spec fn gate_open(self) -> bool {
        self.lin > 0 && self.len.is_playing()
    }

    pub closed spec fn sequence_step(self) -> u8 {
        self.step
    }

    pub closed spec fn at_step(self, step: u8) -> Triangle {
        Triangle { step, ..self }
    }

    /// The 32-step sequence 15..0 then 0..15.
    pub closed spec fn code(self) -> u8 {
        if self.step < 16 {
            (15 - self.step) as u8
        } else {
            (self.step - 16) as u8
        }
    }

    fn new() -> (t: Triangle)
        ensures
            t == Triangle::power_on(),
            t.wf(),
    {
        Triangle {
            len: Length::new(),
            control: false,
            lin_reload_value: 0,
            lin: 0,
            lin_reload: false,
            period: 0,
            timer: 0,
            reload_pending: false,
            step: 0,
        }
    }

    fn write(&mut self, reg: u8, v: u8, length: &[u8; 32])
        requires
            old(self).wf(),
        ensures
            *final(self) == old(self).written(reg, v, *length),
            final(self).wf(),
    {
        let r = reg & 3;
        if r == 0 {
            assert(v & 0x7f <= 0x7f) by (bit_vector);
            self.control = v & 0x80 != 0;
            self.len.halt = self.control;
            self.lin_reload_value = v & 0x7f;
        } else if r == 2 {
            let p = self.period;
            assert((p & 0x700) | (v as u16) <= 0x7ff) by (bit_vector);
            self.period = (self.period & 0x700) | (v as u16);
            self.reload_pending = true;
        } else if r == 3 {
            let p = self.period;
            assert((p & 0xff) | (((v as u16) & 7) << 8u16) <= 0x7ff) by (bit_vector);
            self.period = (self.period & 0xff) | (((v as u16) & 7) << 8u16);
            self.len.load(v >> 3u8, length);
            self.lin_reload = true;
        }
    }

    fn quarter(&mut self)
        requires
            old(self).wf(),
        ensures
            *final(self) == old(self).quartered(),
            final(self).wf(),
    {
        if self.lin_reload {
            self.lin = self.lin_reload_value;
        } else if self.lin > 0 {
            self.lin = self.lin - 1;
        }
        if !self.control {
            self.lin_reload = false;
        }
    }

    /// Every 2 half-steps: holds p, counts to 0, the reload steps the
    /// sequencer when both counters allow, p+1 ticks per step.
    fn tick(&mut self)
        requires
            old(self).wf(),
        ensures
            *final(self) == old(self).ticked(),
            final(self).wf(),
    {
        if self.reload_pending {
            self.reload_pending = false;
            self.timer = self.period as u32;
        } else if self.timer == 0 {
            self.timer = self.period as u32;
            if self.lin > 0 && self.len.playing() && self.period != 0 {
                let s = self.step;
                assert(((s + 1) as u8) & 31u8 == ((s + 1) % 32) as u8) by (bit_vector)
                    requires
                        s < 32,
                ;
                self.step = (self.step + 1) & 31;
            }
        } else {
            self.timer = self.timer - 1;
        }
    }

    fn out(&self) -> (c: u8)
        requires
            self.wf(),
        ensures
            c == self.code(),
    {
        if self.step < 16 {
            15 - self.step
        } else {
            self.step - 16
        }
    }
}


// ---------------------------------------------------------------------
// The noise.
// ---------------------------------------------------------------------

#[derive(Clone, Copy, Debug)]
pub struct Noise {
    env: Envelope,
    len: Length,
    mode1: bool,
    period_idx: u8,
    timer: Timer,
    /// Bit i is the die's noi_c{i}; the shift moves toward c14 and c0
    /// takes the feedback.
    lfsr: u16,
}

impl Noise {
    pub closed spec fn wf(self) -> bool {
        &&& self.env.wf()
        &&& self.timer.wf()
        &&& self.period_idx <= 15
        &&& 0 < self.lfsr < 0x8000
    }

    pub closed spec fn power_on(t: Tables) -> Noise {
        Noise {
            env: Envelope::power_on(),
            len: Length::power_on(),
            mode1: false,
            period_idx: 0,
            timer: Timer::built(t.noise_timer, 11, fit::NOISE_UNIT_LAG),
            lfsr: 0x7ffe,
        }
    }

    /// A write to register `reg & 3`: envelope and halt; mode and period
    /// index; the length load with the envelope start. Register 1 is
    /// not the noise's.
    pub closed spec fn written(self, reg: u8, v: u8, length: [u8; 32]) -> Noise {
        if reg & 3 == 0 {
            Noise { env: self.env.written(v), len: self.len.halted(v & 0x20 != 0), ..self }
        } else if reg & 3 == 2 {
            Noise { mode1: v & 0x80 != 0, period_idx: v & 0x0f, ..self }
        } else if reg & 3 == 3 {
            Noise { len: self.len.loaded(v >> 3u8, length), env: self.env.started(), ..self }
        } else {
            self
        }
    }

    /// The LFSR's shift: toward c14, with c14 XOR the mode's tap (c13 in
    /// mode 0, c8 in mode 1) fed into c0.
    pub closed spec fn lfsr_shifted(lfsr: u16, mode1: bool) -> u16 {
        let c14 = (lfsr >> 14u16) & 1;
        let tap = if mode1 { (lfsr >> 8u16) & 1 } else { (lfsr >> 13u16) & 1 };
        ((lfsr << 1u16) & 0x7fff) | (c14 ^ tap)
    }

    /// The mode bit (`$400E` bit 7: the short, 93-step sequence).
    pub closed spec fn short_mode(self) -> bool {
        self.mode1
    }

    /// The LFSR register.
    pub closed spec fn lfsr_bits(self) -> u16 {
        self.lfsr
    }

    /// The channel's envelope.
    pub closed spec fn noise_envelope(self) -> Envelope {
        self.env
    }

    /// The channel's length counter.
    pub closed spec fn noise_length(self) -> Length {
        self.len
    }

    /// The period index last written to `$400E`.
    pub closed spec fn period_index(self) -> u8 {
        self.period_idx
    }

    /// The noise's LFSR timer.
    pub closed spec fn noise_timer(self) -> Timer {
        self.timer
    }

    pub closed spec fn ticked(self) -> Noise {
        Noise { timer: self.timer.ticked(self.period_idx), ..self }
    }

    /// Every half-step: the LFSR shifts on the one where the timer's
    /// countdown clocks it.
    pub closed spec fn stepped(self) -> Noise {
        let (timer, clocked) = self.timer.counted();
        Noise {
            timer,
            lfsr: if clocked { Noise::lfsr_shifted(self.lfsr, self.mode1) } else { self.lfsr },
            ..self
        }
    }

    /// The 4-bit code: the envelope's level while c14 is clear on a
    /// playing channel, else silence.
    pub closed spec fn code(self) -> u8 {
        if (self.lfsr >> 14u16) & 1 == 0 && self.len.is_playing() {
            self.env.level()
        } else {
            0
        }
    }

    fn new(t: &Tables) -> (n: Noise)
        requires
            t.wf(),
        ensures
            n == Noise::power_on(*t),
            n.wf(),
    {
        Noise {
            env: Envelope::new(),
            len: Length::new(),
            mode1: false,
            period_idx: 0,
            timer: Timer::new(t.noise_timer, 11, fit::NOISE_UNIT_LAG),
            lfsr: 0x7ffe,
        }
    }

    fn write(&mut self, reg: u8, v: u8, length: &[u8; 32])
        requires
            old(self).wf(),
        ensures
            *final(self) == old(self).written(reg, v, *length),
            final(self).wf(),
    {
        let r = reg & 3;
        if r == 0 {
            self.env.write(v);
            self.len.halt = v & 0x20 != 0;
        } else if r == 2 {
            assert(v & 0x0f <= 15) by (bit_vector);
            self.mode1 = v & 0x80 != 0;
            self.period_idx = v & 0x0f;
        } else if r == 3 {
            self.len.load(v >> 3u8, length);
            self.env.start = true;
        }
    }

    fn tick(&mut self)
        requires
            old(self).wf(),
        ensures
            *final(self) == old(self).ticked(),
            final(self).wf(),
    {
        self.timer.tick(self.period_idx);
    }

    fn half_step(&mut self)
        requires
            old(self).wf(),
        ensures
            *final(self) == old(self).stepped(),
            final(self).wf(),
    {
        if self.timer.half_step() {
            let l = self.lfsr;
            let m = self.mode1;
            proof {
                lemma_lfsr_stays_live(l, m);
            }
            let c14 = (self.lfsr >> 14u16) & 1;
            let tap = if self.mode1 { (self.lfsr >> 8u16) & 1 } else { (self.lfsr >> 13u16) & 1 };
            self.lfsr = ((self.lfsr << 1u16) & 0x7fff) | (c14 ^ tap);
        }
    }

    fn out(&self) -> (c: u8)
        requires
            self.wf(),
        ensures
            c == self.code(),
    {
        if (self.lfsr >> 14u16) & 1 == 0 && self.len.playing() {
            self.env.volume()
        } else {
            0
        }
    }
}

/// The noise LFSR never locks: a nonzero 15-bit register shifts to a
/// nonzero 15-bit register in either mode.
pub proof fn lemma_lfsr_stays_live(lfsr: u16, mode1: bool)
    requires
        0 < lfsr < 0x8000,
    ensures
        0 < Noise::lfsr_shifted(lfsr, mode1) < 0x8000,
{
    let c14 = (lfsr >> 14u16) & 1;
    let t8 = (lfsr >> 8u16) & 1;
    let t13 = (lfsr >> 13u16) & 1;
    assert(0 < (((lfsr << 1u16) & 0x7fff) | (c14 ^ t8)) < 0x8000) by (bit_vector)
        requires
            0 < lfsr < 0x8000,
            c14 == (lfsr >> 14u16) & 1,
            t8 == (lfsr >> 8u16) & 1,
    ;
    assert(0 < (((lfsr << 1u16) & 0x7fff) | (c14 ^ t13)) < 0x8000) by (bit_vector)
        requires
            0 < lfsr < 0x8000,
            c14 == (lfsr >> 14u16) & 1,
            t13 == (lfsr >> 13u16) & 1,
    ;
}

// ---------------------------------------------------------------------
// The DMC.
// ---------------------------------------------------------------------

#[derive(Clone, Copy, Debug)]
pub struct Dmc {
    irq_enable: bool,
    loop_: bool,
    rate: u8,
    out: u8,
    sample_addr: u16,
    sample_len: u16,
    addr: u16,
    remaining: u16,
    buffer: Option<u8>,
    shifter: u8,
    /// The die's `pcm_bits`, counting up 0..7 per completion; the byte
    /// boundary is the wrap to 0.
    bits: u8,
    silence: bool,
    timer: Timer,
    pub irq: bool,
    enabled: bool,
    /// A sample byte fetched this half-step, for the rung's stall: the
    /// address, and whether the enable write asked for it.
    pub fetched: Option<(u16, bool)>,
}

impl Dmc {
    pub closed spec fn wf(self) -> bool {
        &&& self.timer.wf()
        &&& self.out <= 0x7f
        &&& self.rate <= 15
        &&& self.bits < 8
        &&& self.sample_addr >= 0xc000
        &&& self.remaining > 0 ==> self.addr >= 0x8000
        &&& self.fetched matches Some(f) ==> f.0 >= 0x8000
    }

    /// The output level, the 7-bit `pcm_out` code.
    pub closed spec fn level(self) -> u8 {
        self.out
    }

    /// The sample bytes still to fetch.
    pub closed spec fn bytes_left(self) -> u16 {
        self.remaining
    }

    /// The address the next fetch reads.
    pub closed spec fn cursor(self) -> u16 {
        self.addr
    }

    /// The sample as written: its start address and its length.
    pub closed spec fn sample(self) -> (u16, u16) {
        (self.sample_addr, self.sample_len)
    }

    /// The loop flag, the IRQ enable, and the IRQ flag.
    pub closed spec fn irq_state(self) -> (bool, bool, bool) {
        (self.loop_, self.irq_enable, self.irq)
    }

    /// Power-on as measured: silence set, the shifter all ones, the bit
    /// counter at 0, the timer at its h=0 state.
    pub closed spec fn power_on(t: Tables) -> Dmc {
        Dmc {
            irq_enable: false,
            loop_: false,
            rate: 0,
            out: 0,
            sample_addr: 0xc000,
            sample_len: 1,
            addr: 0,
            remaining: 0,
            buffer: None,
            shifter: 0xff,
            bits: 0,
            silence: true,
            timer: Timer::built(t.dmc_timer, 9, fit::DMC_UNIT_LAG),
            irq: false,
            enabled: false,
            fetched: None,
        }
    }

    /// A write to register `reg & 3`: IRQ enable (clearing the flag when
    /// off), loop and rate; the output level; the sample address
    /// `$C000 + 64 v`; the sample length `16 v + 1`.
    pub closed spec fn written(self, reg: u8, v: u8) -> Dmc {
        if reg & 3 == 0 {
            Dmc {
                irq_enable: v & 0x80 != 0,
                irq: if v & 0x80 != 0 { self.irq } else { false },
                loop_: v & 0x40 != 0,
                rate: v & 0x0f,
                ..self
            }
        } else if reg & 3 == 1 {
            Dmc { out: v & 0x7f, ..self }
        } else if reg & 3 == 2 {
            Dmc { sample_addr: (0xc000 + 64 * v) as u16, ..self }
        } else {
            Dmc { sample_len: (16 * v + 1) as u16, ..self }
        }
    }

    /// The address after a fetch: the next byte, wrapping from `$FFFF`
    /// to `$8000`.
    pub open spec fn next_addr(a: u16) -> u16 {
        if a == 0xffff {
            0x8000
        } else {
            (a + 1) as u16
        }
    }

    /// A sample fetch that read byte `b`: nothing with no bytes
    /// remaining; otherwise the byte fills the buffer, the cursor moves
    /// on, and the last byte restarts the sample (looping) or raises the
    /// IRQ (when enabled).
    #[verifier::opaque]
    pub closed spec fn fetched_with(self, b: u8) -> Dmc {
        if self.remaining == 0 {
            self
        } else {
            let remaining = (self.remaining - 1) as u16;
            let moved = Dmc {
                fetched: Some((self.addr, false)),
                buffer: Some(b),
                addr: Dmc::next_addr(self.addr),
                remaining,
                ..self
            };
            if remaining == 0 {
                if self.loop_ {
                    Dmc { addr: self.sample_addr, remaining: self.sample_len, ..moved }
                } else if self.irq_enable {
                    Dmc { irq: true, ..moved }
                } else {
                    moved
                }
            } else {
                moved
            }
        }
    }

    /// The reads a fetch makes, `b` the byte returned: one, at the
    /// cursor, when bytes remain; none otherwise.
    pub closed spec fn fetch_reads(self, b: u8) -> Seq<(u16, u8)> {
        if self.remaining == 0 {
            Seq::empty()
        } else {
            seq![(self.addr, b)]
        }
    }

    /// The reads the enable bit makes: the fetch into an empty buffer
    /// after an idle sample's restart, when turned on; none when off.
    pub closed spec fn enable_reads(self, on: bool, b: u8) -> Seq<(u16, u8)> {
        if on && self.buffer is None {
            if self.remaining == 0 {
                Dmc { addr: self.sample_addr, remaining: self.sample_len, ..self }.fetch_reads(b)
            } else {
                self.fetch_reads(b)
            }
        } else {
            Seq::empty()
        }
    }

    /// The reads a half-step makes: the refill's fetch, on a completion
    /// that wraps the bit counter with a full buffer; none otherwise.
    pub closed spec fn step_reads(self, b: u8) -> Seq<(u16, u8)> {
        if self.timer.counted().1 && (self.bits + 1) % 8 == 0 && self.buffer is Some {
            self.fetch_reads(b)
        } else {
            Seq::empty()
        }
    }

    /// The `$4015` enable bit: on restarts an idle sample and fetches at
    /// once into an empty buffer (marking the fetch as the enable's);
    /// off drops the bytes remaining.
    #[verifier::opaque]
    pub closed spec fn enabled_with(self, on: bool, b: u8) -> Dmc {
        if on {
            let s1 = if self.remaining == 0 {
                Dmc { enabled: true, addr: self.sample_addr, remaining: self.sample_len, ..self }
            } else {
                Dmc { enabled: true, ..self }
            };
            if s1.buffer is None {
                let s2 = s1.fetched_with(b);
                match s2.fetched {
                    Some(f) => Dmc { fetched: Some((f.0, true)), ..s2 },
                    None => s2,
                }
            } else {
                s1
            }
        } else {
            Dmc { enabled: false, remaining: 0, ..self }
        }
    }

    /// The output unit: the shift register, the bit counter, the
    /// silence flag, and the sample buffer.
    pub closed spec fn output_unit(self) -> (u8, u8, bool, Option<u8>) {
        (self.shifter, self.bits, self.silence, self.buffer)
    }

    /// The fetch of this half-step, if any: its address and whether the
    /// enable asked for it.
    pub closed spec fn fetch_mark(self) -> Option<(u16, bool)> {
        self.fetched
    }

    /// The rate index last written to `$4010`.
    pub closed spec fn rate_index(self) -> u8 {
        self.rate
    }

    /// The DMC's LFSR timer.
    pub closed spec fn dmc_timer(self) -> Timer {
        self.timer
    }

    pub closed spec fn ticked(self) -> Dmc {
        Dmc { timer: self.timer.ticked(self.rate), ..self }
    }

    /// The output level after one bit: up two for a set bit (to at most
    /// 127), down two for a clear one (to at least 0), held in silence.
    pub closed spec fn level_after(out: u8, silence: bool, bit: bool) -> u8 {
        if silence {
            out
        } else if bit {
            if out <= 125 {
                (out + 2) as u8
            } else {
                out
            }
        } else if out >= 2 {
            (out - 2) as u8
        } else {
            out
        }
    }

    /// Every half-step; on a completion (the timer's clock): the level
    /// moves by the bit shifted out, the shifter shifts, the bit counter
    /// counts, and at its wrap the buffer (if full) becomes the next
    /// byte and its refill is fetched (reading `b`), else silence.
    #[verifier::opaque]
    pub closed spec fn stepped_with(self, b: u8) -> Dmc {
        let (timer, clocked) = self.timer.counted();
        if !clocked {
            Dmc { timer, ..self }
        } else {
            let shifted = Dmc {
                timer,
                out: Dmc::level_after(self.out, self.silence, self.shifter & 1 != 0),
                shifter: self.shifter >> 1u8,
                bits: ((self.bits + 1) % 8) as u8,
                ..self
            };
            if shifted.bits == 0 {
                match self.buffer {
                    Some(x) => Dmc { buffer: None, silence: false, shifter: x, ..shifted }.fetched_with(b),
                    None => Dmc { silence: true, ..shifted },
                }
            } else {
                shifted
            }
        }
    }

    fn new(t: &Tables) -> (d: Dmc)
        requires
            t.wf(),
        ensures
            d == Dmc::power_on(*t),
            d.wf(),
    {
        Dmc {
            irq_enable: false,
            loop_: false,
            rate: 0,
            out: 0,
            sample_addr: 0xc000,
            sample_len: 1,
            addr: 0,
            remaining: 0,
            buffer: None,
            shifter: 0xff,
            bits: 0,
            silence: true,
            timer: Timer::new(t.dmc_timer, 9, fit::DMC_UNIT_LAG),
            irq: false,
            enabled: false,
            fetched: None,
        }
    }

    fn write(&mut self, reg: u8, v: u8)
        requires
            old(self).wf(),
        ensures
            *final(self) == old(self).written(reg, v),
            final(self).wf(),
    {
        let r = reg & 3;
        if r == 0 {
            assert(v & 0x0f <= 15) by (bit_vector);
            self.irq_enable = v & 0x80 != 0;
            if !self.irq_enable {
                self.irq = false;
            }
            self.loop_ = v & 0x40 != 0;
            self.rate = v & 0x0f;
        } else if r == 1 {
            assert(v & 0x7f <= 0x7f) by (bit_vector);
            self.out = v & 0x7f;
        } else if r == 2 {
            assert(0xc000u16 | ((v as u16) << 6u16) == 0xc000 + 64 * v) by (bit_vector);
            self.sample_addr = 0xc000 | ((v as u16) << 6u16);
        } else {
            assert(((v as u16) << 4u16) | 1 == 16 * v + 1) by (bit_vector);
            self.sample_len = ((v as u16) << 4u16) | 1;
        }
    }

    /// The fetch, returning the byte it read (zero when it read none).
    fn fetch<B: SampleBus>(&mut self, bus: &mut B) -> (b: u8)
        requires
            old(self).wf(),
        ensures
            *final(self) == old(self).fetched_with(b),
            final(self).wf(),
            final(bus).reads() == old(bus).reads() + old(self).fetch_reads(b),
    {
        reveal(Dmc::fetched_with);
        if self.remaining == 0 {
            assert(old(bus).reads() + Seq::<(u16, u8)>::empty() =~= old(bus).reads());
            return 0;
        }
        let b = bus.read(self.addr);
        assert(bus.reads() =~= old(bus).reads() + old(self).fetch_reads(b));
        self.fetched = Some((self.addr, false));
        self.buffer = Some(b);
        self.addr = if self.addr == 0xffff { 0x8000 } else { self.addr + 1 };
        self.remaining = self.remaining - 1;
        if self.remaining == 0 {
            if self.loop_ {
                self.addr = self.sample_addr;
                self.remaining = self.sample_len;
            } else if self.irq_enable {
                self.irq = true;
            }
        }
        b
    }

    /// The enable bit, returning the byte its fetch read (zero when none).
    fn set_enabled<B: SampleBus>(&mut self, on: bool, bus: &mut B) -> (b: u8)
        requires
            old(self).wf(),
        ensures
            *final(self) == old(self).enabled_with(on, b),
            final(self).wf(),
            final(bus).reads() == old(bus).reads() + old(self).enable_reads(on, b),
    {
        reveal(Dmc::enabled_with);
        self.enabled = on;
        if on {
            if self.remaining == 0 {
                self.addr = self.sample_addr;
                self.remaining = self.sample_len;
            }
            if self.buffer.is_none() {
                let b = self.fetch(bus);
                match self.fetched {
                    Some(f) => {
                        self.fetched = Some((f.0, true));
                    },
                    None => {},
                }
                return b;
            }
            0
        } else {
            self.remaining = 0;
            0
        }
    }

    fn tick(&mut self)
        requires
            old(self).wf(),
        ensures
            *final(self) == old(self).ticked(),
            final(self).wf(),
    {
        self.timer.tick(self.rate);
    }

    /// A completion, in the measured order, returning the byte its
    /// refill read (zero when none).
    fn half_step<B: SampleBus>(&mut self, bus: &mut B) -> (b: u8)
        requires
            old(self).wf(),
        ensures
            *final(self) == old(self).stepped_with(b),
            final(self).wf(),
            final(bus).reads() == old(bus).reads() + old(self).step_reads(b),
    {
        reveal(Dmc::stepped_with);
        if !self.timer.half_step() {
            return 0;
        }
        if !self.silence {
            if self.shifter & 1 != 0 {
                if self.out <= 125 {
                    self.out = self.out + 2;
                }
            } else if self.out >= 2 {
                self.out = self.out - 2;
            }
        }
        self.shifter = self.shifter >> 1u8;
        let bt = self.bits;
        assert(((bt + 1) as u8) & 7u8 == ((bt + 1) % 8) as u8) by (bit_vector)
            requires
                bt < 8,
        ;
        self.bits = (self.bits + 1) & 7;
        if self.bits == 0 {
            match self.buffer {
                Some(x) => {
                    self.buffer = None;
                    self.silence = false;
                    self.shifter = x;
                    return self.fetch(bus);
                },
                None => {
                    self.silence = true;
                },
            }
        }
        0
    }
}


// ---------------------------------------------------------------------
// The APU.
// ---------------------------------------------------------------------

/// The frame sequencer's pending effects as the table scan leaves them:
/// the phase due on the envelopes, lengths and sweeps (with its
/// countdown), the triangle's countdown, the squares' lengths' countdown.
pub type FrameDue = (Option<(u8, u8)>, Option<u8>, Option<u8>);

/// The effects scheduled by the table's rises at `pos`, scanning the
/// table in order: a rise schedules its phase and the triangle's clock,
/// and a half-frame phase (neither 0 nor 2) the squares' lengths too.
pub open spec fn scan_rises(table: Seq<(u32, u8)>, pos: u32, due: FrameDue) -> FrameDue
    decreases table.len(),
{
    if table.len() == 0 {
        due
    } else {
        let d = scan_rises(table.drop_last(), pos, due);
        let (at, phase) = table.last();
        if at == pos {
            (
                Some((phase, fit::FRAME_EFFECT_LAG)),
                Some(fit::TRI_FRAME_LAG),
                if phase != 0 && phase != 2 { Some(fit::SQ_LENGTH_LAG) } else { d.2 },
            )
        } else {
            d
        }
    }
}

#[derive(Clone, Debug)]
pub struct Apu {
    pub sq: [Square; 2],
    pub tri: Triangle,
    pub noise: Noise,
    pub dmc: Dmc,
    /// Half-steps elapsed on the frame sequencer's clock since its
    /// (re)start; compared against the mode's table.
    frame_pos: u32,
    /// Half-steps the sequencer still waits before `frame_pos` moves
    /// (the other write parity's jitter).
    frame_hold: u32,
    five_step: bool,
    irq_inhibit: bool,
    pub frame_irq: bool,
    /// Half-cycles since the contract's h=0.
    pub h: u64,
    /// The squares' and the noise's codes of the last four half-steps,
    /// indexed by h modulo four.
    sq_lag: [[u8; 3]; 4],
    /// A frame phase whose effect is due in this many half-steps, once
    /// for the envelopes/lengths/sweeps and once for the triangle, and
    /// the squares' length clock.
    frame_due: Option<(u8, u8)>,
    tri_due: Option<u8>,
    sq_len_due: Option<u8>,
    /// A register write presented this frame, applied as the frame's
    /// `half_step` begins, before its ticks.
    pending: Option<(u8, u8)>,
    tables: Tables,
}

impl Apu {
    pub closed spec fn wf(self) -> bool {
        &&& self.tables.wf()
        &&& self.sq[0].wf() && !self.sq[0].second
        &&& self.sq[1].wf() && self.sq[1].second
        &&& self.tri.wf()
        &&& self.noise.wf()
        &&& self.dmc.wf()
        &&& self.frame_pos <= 2 * FRAME_LIMIT + 1
        &&& self.irq_inhibit ==> !self.frame_irq
        &&& forall|i: int, k: int| 0 <= i < 4 && 0 <= k < 3 ==> #[trigger] self.sq_lag[i][k] <= 15
    }

    /// A write presented, to take effect at the next half-step.
    pub closed spec fn presented(self, reg: u8, v: u8) -> Apu {
        Apu { pending: Some((reg, v)), ..self }
    }

    /// Whether the sequencer runs the 5-step table.
    pub closed spec fn five_step_mode(self) -> bool {
        self.five_step
    }

    /// No phase-3 effect is scheduled to land.
    pub closed spec fn no_phase_3_due(self) -> bool {
        self.frame_due matches Some(f) ==> f.0 != 3
    }

    /// The pending write, if any, leaves the sequencer in 5-step mode:
    /// it is not a `$4017` write, or one with bit 7 set.
    pub closed spec fn pending_keeps_five_step(self) -> bool {
        self.pending matches Some(p) ==> (p.0 != 0x17 || p.1 & 0x80 != 0)
    }

    /// The write presented for the next half-step, if any.
    pub closed spec fn pending_write(self) -> Option<(u8, u8)> {
        self.pending
    }

    /// The five channels: the two squares, the triangle, the noise, the
    /// DMC.
    pub closed spec fn units(self) -> (Square, Square, Triangle, Noise, Dmc) {
        (self.sq[0], self.sq[1], self.tri, self.noise, self.dmc)
    }

    /// The four length counters: square 0, square 1, triangle, noise.
    pub closed spec fn lengths(self) -> Seq<Length> {
        seq![self.sq[0].len, self.sq[1].len, self.tri.len, self.noise.len]
    }

    /// A register write presented, when there is one.
    pub closed spec fn maybe_presented(self, w: Option<(u8, u8)>) -> Apu {
        match w {
            Some(x) => self.presented(x.0, x.1),
            None => self,
        }
    }

    /// Square `i`'s code as its state stands (not lagged).
    pub closed spec fn square_code(self, i: int) -> u8 {
        self.sq[i].code(self.tables.duty)
    }

    /// The noise's code as its state stands (not lagged).
    pub closed spec fn noise_code(self) -> u8 {
        self.noise.code()
    }

    /// The triangle's code.
    pub closed spec fn triangle_code(self) -> u8 {
        self.tri.code()
    }

    /// The state a `$4015` read leaves: the frame IRQ flag cleared.
    pub closed spec fn status_read(self) -> Apu {
        Apu { frame_irq: false, ..self }
    }

    /// Half-cycles since the contract's h=0.
    pub closed spec fn half_cycles(self) -> u64 {
        self.h
    }

    /// The frame IRQ flag.
    pub closed spec fn frame_irq_flag(self) -> bool {
        self.frame_irq
    }

    /// The DMC's IRQ flag.
    pub closed spec fn dmc_irq_flag(self) -> bool {
        self.dmc.irq
    }

    /// The DMC's last sample fetch, if any.
    pub closed spec fn dmc_last_fetch(self) -> Option<(u16, bool)> {
        self.dmc.fetched
    }

    /// The DMC's output level.
    pub closed spec fn dmc_level(self) -> u8 {
        self.dmc.out
    }

    /// The DMC's fetch mark consumed.
    pub closed spec fn fetch_taken(self) -> Apu {
        Apu { dmc: Dmc { fetched: None, ..self.dmc }, ..self }
    }

    /// The frame IRQ inhibit set by the last `$4017` write.
    pub closed spec fn irq_inhibited(self) -> bool {
        self.irq_inhibit
    }

    /// The tables the APU was built with.
    pub closed spec fn table_set(self) -> Tables {
        self.tables
    }

    /// A register write presented this frame and not yet applied.
    pub closed spec fn has_pending_write(self) -> bool {
        self.pending is Some
    }

    /// The APU as it stands at the pin contract's h=0 after power-on:
    /// every unit at power-on, the frame counter `frame_pos_at_h0`
    /// half-steps into its first period.
    pub closed spec fn power_on(t: Tables) -> Apu {
        Apu {
            sq: pair(Square::power_on(false), Square::power_on(true)),
            tri: Triangle::power_on(),
            noise: Noise::power_on(t),
            dmc: Dmc::power_on(t),
            frame_pos: (t.frame_4@[0].0 - t.frame_power_on + 1) as u32,
            frame_hold: 0,
            five_step: false,
            irq_inhibit: false,
            frame_irq: false,
            h: 0,
            sq_lag: [[0u8, 0u8, 0u8], [0u8, 0u8, 0u8], [0u8, 0u8, 0u8], [0u8, 0u8, 0u8]],
            frame_due: None,
            tri_due: None,
            sq_len_due: None,
            pending: None,
            tables: t,
        }
    }

    /// The APU with square `i` (0 or 1) replaced by `s`.
    pub closed spec fn with_square(self, i: int, s: Square) -> Apu {
        Apu { sq: if i == 0 { pair(s, self.sq[1]) } else { pair(self.sq[0], s) }, ..self }
    }

    /// The half-steps a `$4017` write holds the sequencer: none on the
    /// short parity, the tables' jitter on the other.
    pub closed spec fn write_hold(self) -> u32 {
        if self.h % 4 == self.tables.write_short_phase {
            0
        } else {
            self.tables.frame_jitter
        }
    }

    /// A mode-1 write's lead: its immediate clock less the squares'
    /// length lag, plus the hold.
    pub closed spec fn mode1_lead(self) -> int {
        ((self.tables.mode1_clock - 3) % 256) + (self.write_hold() % 256)
    }

    /// The `$4015` write: the four length enables, the DMC's enable
    /// (whose fetch reads `b`), the DMC IRQ acknowledged first.
    pub closed spec fn enables_applied(self, v: u8, b: u8) -> Apu {
        self.lengths_switched(v).dmc_switched(v & 0x10 != 0, b)
    }

    /// The four length counters' enables, bits 0..3.
    pub closed spec fn lengths_switched(self, v: u8) -> Apu {
        let s0 = Square { len: self.sq[0].len.switched(v & 1 != 0), ..self.sq[0] };
        let s1 = Square { len: self.sq[1].len.switched(v & 2 != 0), ..self.sq[1] };
        Apu {
            sq: pair(s0, s1),
            tri: Triangle { len: self.tri.len.switched(v & 4 != 0), ..self.tri },
            noise: Noise { len: self.noise.len.switched(v & 8 != 0), ..self.noise },
            ..self
        }
    }

    /// The DMC's IRQ acknowledged, then its enable (whose fetch reads
    /// `b`): a one-byte sample's own fetch raises the IRQ anew.
    pub closed spec fn dmc_switched(self, on: bool, b: u8) -> Apu {
        Apu { dmc: Dmc { irq: false, ..self.dmc }.enabled_with(on, b), ..self }
    }

    /// The `$4017` write: the mode and the IRQ inhibit (clearing the
    /// flag), the sequencer restarted (held on the long parity), and in
    /// mode 1 the immediate quarter and half clocks scheduled.
    pub closed spec fn frame_mode_applied(self, v: u8) -> Apu {
        let five = v & 0x80 != 0;
        let inhibit = v & 0x40 != 0;
        let restarted = Apu {
            five_step: five,
            irq_inhibit: inhibit,
            frame_irq: if inhibit { false } else { self.frame_irq },
            frame_pos: fit::FRAME_WRITE_LAG,
            frame_hold: self.write_hold(),
            ..self
        };
        if five {
            let lead = self.mode1_lead();
            Apu {
                frame_due: Some((1u8, (fit::FRAME_EFFECT_LAG + lead) as u8)),
                tri_due: Some((fit::TRI_FRAME_LAG + lead) as u8),
                sq_len_due: Some((fit::SQ_LENGTH_LAG + lead) as u8),
                ..restarted
            }
        } else {
            restarted
        }
    }

    /// A register write `$4000 + reg` taking effect; `b` is the byte a
    /// sample fetch it starts reads.
    #[verifier::opaque]
    pub closed spec fn applied_with(self, reg: u8, v: u8, b: u8) -> Apu {
        if reg <= 0x03 {
            self.with_square(0, self.sq[0].written(reg, v, self.tables.length))
        } else if reg <= 0x07 {
            self.with_square(1, self.sq[1].written(reg, v, self.tables.length))
        } else if reg <= 0x0b {
            Apu { tri: self.tri.written(reg, v, self.tables.length), ..self }
        } else if reg <= 0x0f {
            Apu { noise: self.noise.written(reg, v, self.tables.length), ..self }
        } else if reg <= 0x13 {
            Apu { dmc: self.dmc.written(reg, v), ..self }
        } else if reg == 0x15 {
            self.enables_applied(v, b)
        } else if reg == 0x17 {
            self.frame_mode_applied(v)
        } else {
            self
        }
    }

    /// The reads a register write makes, `b` the byte returned: only a
    /// `$4015` write reads, through the DMC's enable; every other
    /// register leaves the bus alone.
    pub closed spec fn applied_reads(self, reg: u8, v: u8, b: u8) -> Seq<(u16, u8)> {
        if reg == 0x15 {
            self.dmc.enable_reads(v & 0x10 != 0, b)
        } else {
            Seq::empty()
        }
    }

    /// The register bits `$4015` reads: bits 0..3 the four length
    /// counters still counting, bit 4 DMC bytes remaining, bit 6 the
    /// frame IRQ, bit 7 the DMC IRQ.
    pub closed spec fn status(self) -> u8 {
        (if self.sq[0].len.is_playing() && self.sq[0].len.enabled { 1u8 } else { 0u8 })
            | (if self.sq[1].len.is_playing() && self.sq[1].len.enabled { 2u8 } else { 0u8 })
            | (if self.tri.len.is_playing() && self.tri.len.enabled { 4u8 } else { 0u8 })
            | (if self.noise.len.is_playing() && self.noise.len.enabled { 8u8 } else { 0u8 })
            | (if self.dmc.remaining > 0 { 0x10u8 } else { 0u8 })
            | (if self.frame_irq { 0x40u8 } else { 0u8 })
            | (if self.dmc.irq { 0x80u8 } else { 0u8 })
    }

    /// Whether length counter `k` (0, 1 squares; 2 triangle; 3 noise)
    /// reports as counting.
    pub closed spec fn length_counting(self, k: int) -> bool {
        if k == 0 {
            self.sq[0].len.is_playing() && self.sq[0].len.enabled
        } else if k == 1 {
            self.sq[1].len.is_playing() && self.sq[1].len.enabled
        } else if k == 2 {
            self.tri.len.is_playing() && self.tri.len.enabled
        } else {
            self.noise.len.is_playing() && self.noise.len.enabled
        }
    }

    /// Whether the DMC has sample bytes left to fetch.
    pub closed spec fn dmc_active(self) -> bool {
        self.dmc.remaining > 0
    }

    /// The current mode's table and period.
    pub closed spec fn frame_table(self) -> Seq<(u32, u8)> {
        if self.five_step {
            self.tables.frame_5@
        } else {
            self.tables.frame_4@
        }
    }

    /// The sequencer's position.
    pub closed spec fn frame_position(self) -> u32 {
        self.frame_pos
    }

    /// Half-steps the sequencer still waits before it moves.
    pub closed spec fn frame_hold_left(self) -> u32 {
        self.frame_hold
    }

    /// The position the sequencer moves to from `pos`: one on, wrapping
    /// at the end of the period to the table's first rise.
    pub closed spec fn position_after(self, pos: u32) -> int {
        let first = self.frame_table()[0].0;
        if pos + 1 >= first + self.frame_period() {
            first as int
        } else {
            pos + 1
        }
    }

    pub closed spec fn frame_period(self) -> u32 {
        if self.five_step {
            self.tables.frame_5_period
        } else {
            self.tables.frame_4_period
        }
    }

    /// The quarter-frame clock: the three envelopes.
    pub closed spec fn quartered(self) -> Apu {
        Apu {
            sq: pair(
                Square { env: self.sq[0].env.quartered(), ..self.sq[0] },
                Square { env: self.sq[1].env.quartered(), ..self.sq[1] },
            ),
            noise: Noise { env: self.noise.env.quartered(), ..self.noise },
            ..self
        }
    }

    /// The half-frame clock: the squares' sweeps, the triangle's and
    /// the noise's lengths (the squares' lengths are clocked apart).
    pub closed spec fn halved(self) -> Apu {
        Apu {
            sq: pair(self.sq[0].swept(), self.sq[1].swept()),
            tri: Triangle { len: self.tri.len.halved(), ..self.tri },
            noise: Noise { len: self.noise.len.halved(), ..self.noise },
            ..self
        }
    }

    pub closed spec fn without_frame_due(self) -> Apu {
        Apu { frame_due: None, ..self }
    }

    /// The frame phase's countdown one half-step on.
    pub closed spec fn frame_due_counted(self) -> Apu {
        match self.frame_due {
            Some(f) => Apu { frame_due: Some((f.0, (f.1 - 1) as u8)), ..self },
            None => self,
        }
    }

    /// The frame IRQ raised, unless inhibited.
    pub closed spec fn frame_irq_raised(self) -> Apu {
        Apu { frame_irq: if self.irq_inhibit { self.frame_irq } else { true }, ..self }
    }

    /// The pending write, if any, taking effect.
    #[verifier::opaque]
    pub closed spec fn write_applied(self, b: u8) -> Apu {
        match self.pending {
            Some(p) => Apu { pending: None, ..self }.applied_with(p.0, p.1, b),
            None => self,
        }
    }

    /// The reads one half-step makes, `b1` and `b2` the bytes returned:
    /// the pending write's, then the DMC's refill, in that order.
    pub closed spec fn step_reads(self, b1: u8, b2: u8) -> Seq<(u16, u8)> {
        let w = match self.pending {
            Some(p) => self.applied_reads(p.0, p.1, b1),
            None => Seq::empty(),
        };
        w + self.write_applied(b1).rises_scheduled().dues_counted().frame_advanced().timers_ticked().dmc.step_reads(b2)
    }

    /// The rises of the current table at the current position scheduled.
    #[verifier::opaque]
    pub closed spec fn rises_scheduled(self) -> Apu {
        let d = scan_rises(self.frame_table(), self.frame_pos, (self.frame_due, self.tri_due, self.sq_len_due));
        Apu { frame_due: d.0, tri_due: d.1, sq_len_due: d.2, ..self }
    }

    /// The squares' length countdown: at zero both lengths are clocked.
    pub closed spec fn sq_len_due_counted(self) -> Apu {
        match self.sq_len_due {
            Some(d) => if d == 0 {
                Apu {
                    sq_len_due: None,
                    sq: pair(
                        Square { len: self.sq[0].len.halved(), ..self.sq[0] },
                        Square { len: self.sq[1].len.halved(), ..self.sq[1] },
                    ),
                    ..self
                }
            } else {
                Apu { sq_len_due: Some((d - 1) as u8), ..self }
            },
            None => self,
        }
    }

    /// The triangle's countdown: at zero its linear counter is clocked.
    pub closed spec fn tri_due_counted(self) -> Apu {
        match self.tri_due {
            Some(d) => if d == 0 {
                Apu { tri_due: None, tri: self.tri.quartered(), ..self }
            } else {
                Apu { tri_due: Some((d - 1) as u8), ..self }
            },
            None => self,
        }
    }

    /// The frame phase's countdown: at zero its effect lands (a quarter
    /// clock for phases 0 and 2; quarter and half otherwise, phase 3
    /// raising the frame IRQ unless inhibited).
    pub closed spec fn frame_phase_landed(self) -> Apu {
        match self.frame_due {
            Some(f) => if f.1 == 0 {
                let s3 = self.without_frame_due();
                if f.0 == 0 || f.0 == 2 {
                    s3.quartered()
                } else if f.0 == 3 {
                    s3.quartered().halved().frame_irq_raised()
                } else {
                    s3.quartered().halved()
                }
            } else {
                self.frame_due_counted()
            },
            None => self,
        }
    }

    /// The three countdowns run: each due effect lands at zero and
    /// otherwise counts down.
    pub closed spec fn dues_counted(self) -> Apu {
        self.sq_len_due_counted().tri_due_counted().frame_phase_landed()
    }

    /// The sequencer's clock: held while the hold lasts, else one
    /// position on, wrapping from the end of the period to the table's
    /// first rise.
    #[verifier::opaque]
    pub closed spec fn frame_advanced(self) -> Apu {
        if self.frame_hold > 0 {
            Apu { frame_hold: (self.frame_hold - 1) as u32, ..self }
        } else {
            let first = self.frame_table()[0].0;
            let next = self.frame_pos + 1;
            Apu {
                frame_pos: if next >= first + self.frame_period() { first } else { next as u32 },
                ..self
            }
        }
    }

    /// The timers, each on its own half-step grain.
    #[verifier::opaque]
    pub closed spec fn timers_ticked(self) -> Apu {
        let s1 = if (self.h + fit::SQ_TICK_PHASE) % 4 == 0 {
            Apu { sq: pair(self.sq[0].ticked(), self.sq[1].ticked()), ..self }
        } else {
            self
        };
        let s2 = if (s1.h + fit::TRI_TICK_PHASE) % 2 == 0 {
            Apu { tri: s1.tri.ticked(), ..s1 }
        } else {
            s1
        };
        if (s2.h + fit::LFSR_TICK_PHASE) % 4 == 0 {
            Apu { noise: s2.noise.ticked(), dmc: s2.dmc.ticked(), ..s2 }
        } else {
            s2
        }
    }

    /// The noise's and the DMC's half-steps (`b` is the byte a DMC
    /// refill reads), the codes recorded in the lag FIFO, and the clock.
    #[verifier::opaque]
    pub closed spec fn units_stepped(self, b: u8) -> Apu {
        let s1 = Apu { noise: self.noise.stepped(), dmc: self.dmc.stepped_with(b), ..self };
        let codes = [s1.sq[0].code(s1.tables.duty), s1.sq[1].code(s1.tables.duty), s1.noise.code()];
        Apu {
            sq_lag: vstd::array::spec_array_update(s1.sq_lag, (s1.h % 4) as int, codes),
            h: (s1.h + 1) as u64,
            ..s1
        }
    }

    /// One CPU half-cycle; `b1` is the byte the pending write's sample
    /// fetch reads and `b2` the byte a DMC refill reads.
    pub closed spec fn stepped(self, b1: u8, b2: u8) -> Apu {
        self.write_applied(b1).rises_scheduled().dues_counted().frame_advanced().timers_ticked().units_stepped(
            b2,
        )
    }

    /// The five output codes: the squares' and the noise's as they were
    /// `fit::SQ_OUT_LAG` half-steps ago, the triangle's and the DMC's as
    /// they stand.
    pub closed spec fn output_codes(self) -> Seq<u8> {
        let lagged = self.sq_lag[((self.h + 4 - 1 - fit::SQ_OUT_LAG) % 4) as int];
        seq![lagged[0], lagged[1], self.tri.code(), lagged[2], self.dmc.out]
    }
}



impl Apu {
    /// The APU as it stands at the pin contract's h=0 after power-on,
    /// built around `tables`.
    pub fn new(tables: Tables) -> (a: Apu)
        requires
            tables.wf(),
        ensures
            a == Apu::power_on(tables),
            a.wf(),
            !a.has_pending_write(),
            a.half_cycles() == 0,
            a.table_set() == tables,
            a.output_codes() == seq![0u8, 0u8, 15u8, 0u8, 0u8],
            a.status() == 0,
    {
        let frame_pos = frame_pos_at_h0(&tables);
        let s0 = Square::new(false);
        let s1 = Square::new(true);
        let sq = [s0, s1];
        proof {
            lemma_square_pair(sq, s0, s1);
        }
        let a = Apu {
            sq,
            tri: Triangle::new(),
            noise: Noise::new(&tables),
            dmc: Dmc::new(&tables),
            frame_pos,
            frame_hold: 0,
            five_step: false,
            irq_inhibit: false,
            frame_irq: false,
            h: 0,
            sq_lag: [[0u8, 0u8, 0u8], [0u8, 0u8, 0u8], [0u8, 0u8, 0u8], [0u8, 0u8, 0u8]],
            frame_due: None,
            tri_due: None,
            sq_len_due: None,
            pending: None,
            tables,
        };
        assert(0u8 | 0u8 | 0u8 | 0u8 | 0u8 | 0u8 | 0u8 == 0u8) by (bit_vector);
        a
    }

    /// A CPU write to `$4000 + reg`, presented on its phi2 frame; applied
    /// as that frame's `half_step` begins. One write per half-cycle.
    pub fn write(&mut self, reg: u8, v: u8)
        requires
            !old(self).has_pending_write(),
        ensures
            *final(self) == old(self).presented(reg, v),
            old(self).wf() ==> final(self).wf(),
            final(self).has_pending_write(),
            final(self).half_cycles() == old(self).half_cycles(),
            final(self).table_set() == old(self).table_set(),
    {
        self.pending = Some((reg, v));
    }

    fn apply<B: SampleBus>(&mut self, reg: u8, v: u8, bus: &mut B) -> (b: u8)
        requires
            old(self).wf(),
        ensures
            *final(self) == old(self).applied_with(reg, v, b),
            final(self).wf(),
            final(bus).reads() == old(bus).reads() + old(self).applied_reads(reg, v, b),
            final(self).h == old(self).h,
            final(self).tables == old(self).tables,
            final(self).pending == old(self).pending,
    {
        reveal(Apu::applied_with);
        if reg <= 0x03 {
            let mut s = self.sq[0];
            s.write(reg, v, &self.tables.length);
            self.sq = [s, self.sq[1]];
            proof { lemma_square_pair(self.sq, s, old(self).sq[1]); }
            0
        } else if reg <= 0x07 {
            let mut s = self.sq[1];
            s.write(reg, v, &self.tables.length);
            self.sq = [self.sq[0], s];
            proof { lemma_square_pair(self.sq, old(self).sq[0], s); }
            0
        } else if reg <= 0x0b {
            self.tri.write(reg, v, &self.tables.length);
            0
        } else if reg <= 0x0f {
            self.noise.write(reg, v, &self.tables.length);
            0
        } else if reg <= 0x13 {
            self.dmc.write(reg, v);
            0
        } else if reg == 0x15 {
            self.apply_enables(v, bus)
        } else if reg == 0x17 {
            self.apply_frame_mode(v);
            0
        } else {
            0
        }
    }

    /// The `$4015` write: the four length enables, the DMC's enable
    /// (returning the byte its fetch read), the DMC IRQ acknowledged first.
    fn apply_enables<B: SampleBus>(&mut self, v: u8, bus: &mut B) -> (b: u8)
        requires
            old(self).wf(),
        ensures
            *final(self) == old(self).enables_applied(v, b),
            final(self).wf(),
            final(bus).reads() == old(bus).reads() + old(self).dmc.enable_reads(v & 0x10 != 0, b),
    {
        self.switch_lengths(v);
        self.switch_dmc(v & 0x10 != 0, bus)
    }

    fn switch_lengths(&mut self, v: u8)
        requires
            old(self).wf(),
        ensures
            *final(self) == old(self).lengths_switched(v),
            final(self).wf(),
    {
        let mut s0 = self.sq[0];
        s0.len.set_enabled(v & 1 != 0);
        let mut s1 = self.sq[1];
        s1.len.set_enabled(v & 2 != 0);
        self.sq = [s0, s1];
        proof {
            lemma_square_pair(self.sq, s0, s1);
        }
        let mut tri = self.tri;
        tri.len.set_enabled(v & 4 != 0);
        self.tri = tri;
        let mut noise = self.noise;
        noise.len.set_enabled(v & 8 != 0);
        self.noise = noise;
    }

    fn switch_dmc<B: SampleBus>(&mut self, on: bool, bus: &mut B) -> (b: u8)
        requires
            old(self).wf(),
        ensures
            *final(self) == old(self).dmc_switched(on, b),
            final(self).wf(),
            final(bus).reads() == old(bus).reads() + old(self).dmc.enable_reads(on, b),
    {
        self.dmc.irq = false;
        self.dmc.set_enabled(on, bus)
    }

    /// The `$4017` write: the mode and the IRQ inhibit (clearing the
    /// flag), the sequencer restarted (held on the long parity), and in
    /// mode 1 the immediate quarter and half clocks scheduled.
    fn apply_frame_mode(&mut self, v: u8)
        requires
            old(self).wf(),
        ensures
            *final(self) == old(self).frame_mode_applied(v),
            final(self).wf(),
    {
        let hold: u32 = if self.h % 4 == self.tables.write_short_phase {
            0
        } else {
            self.tables.frame_jitter
        };
        self.five_step = v & 0x80 != 0;
        self.irq_inhibit = v & 0x40 != 0;
        if self.irq_inhibit {
            self.frame_irq = false;
        }
        self.frame_pos = fit::FRAME_WRITE_LAG;
        self.frame_hold = hold;
        if self.five_step {
            // The mode-1 write clocks the quarter and half frames at
            // once, from the write's own frame: the same effects a
            // phase-1 rise schedules, led by the immediate clock.
            let m: u32 = self.tables.mode1_clock - 3;
            assert(m as u8 == m % 256) by (bit_vector);
            assert(hold as u8 == hold % 256) by (bit_vector);
            let lead: u8 = (m as u8) + (hold as u8);
            self.frame_due = Some((1, fit::FRAME_EFFECT_LAG + lead));
            self.tri_due = Some(fit::TRI_FRAME_LAG + lead);
            self.sq_len_due = Some(fit::SQ_LENGTH_LAG + lead);
        }
    }

    /// `$4015` as read: the length counters' states, the two IRQ flags.
    /// Reading clears the frame IRQ flag.
    pub fn read_status(&mut self) -> (r: u8)
        requires
            old(self).wf(),
        ensures
            r == old(self).status(),
            final(self).has_pending_write() == old(self).has_pending_write(),
            final(self).half_cycles() == old(self).half_cycles(),
            final(self).table_set() == old(self).table_set(),
            forall|k: int| 0 <= k < 4 ==> ((r >> (k as u8)) & 1 == 1 <==> #[trigger] old(self).length_counting(k)),
            (r >> 4u8) & 1 == 1 <==> old(self).dmc_active(),
            (r >> 5u8) & 1 == 0,
            (r >> 6u8) & 1 == 1 <==> old(self).frame_irq_flag(),
            (r >> 7u8) & 1 == 1 <==> old(self).dmc_irq_flag(),
            *final(self) == old(self).status_read(),
            final(self).wf(),
    {
        let b0: u8 = if self.sq[0].len.playing() && self.sq[0].len.enabled { 1 } else { 0 };
        let b1: u8 = if self.sq[1].len.playing() && self.sq[1].len.enabled { 2 } else { 0 };
        let b2: u8 = if self.tri.len.playing() && self.tri.len.enabled { 4 } else { 0 };
        let b3: u8 = if self.noise.len.playing() && self.noise.len.enabled { 8 } else { 0 };
        let b4: u8 = if self.dmc.remaining > 0 { 0x10 } else { 0 };
        let b6: u8 = if self.frame_irq { 0x40 } else { 0 };
        let b7: u8 = if self.dmc.irq { 0x80 } else { 0 };
        let v = b0 | b1 | b2 | b3 | b4 | b6 | b7;
        proof {
            lemma_status_bits(b0, b1, b2, b3, b4, b6, b7);
            assert forall|k: int| 0 <= k < 4 implies ((v >> (k as u8)) & 1 == 1 <==> #[trigger] self.length_counting(k)) by {
                if k == 0 {
                    assert((v >> (0int as u8)) == (v >> 0u8));
                } else if k == 1 {
                    assert((v >> (1int as u8)) == (v >> 1u8));
                } else if k == 2 {
                    assert((v >> (2int as u8)) == (v >> 2u8));
                } else {
                    assert((v >> (3int as u8)) == (v >> 3u8));
                }
            }
        }
        self.frame_irq = false;
        v
    }

    fn quarter(&mut self)
        requires
            old(self).wf(),
        ensures
            *final(self) == old(self).quartered(),
            final(self).wf(),
    {
        let mut s0 = self.sq[0];
        s0.env.quarter();
        let mut s1 = self.sq[1];
        s1.env.quarter();
        self.sq = [s0, s1];
        proof { lemma_square_pair(self.sq, s0, s1); }
        self.noise.env.quarter();
    }

    fn half(&mut self)
        requires
            old(self).wf(),
        ensures
            *final(self) == old(self).halved(),
            final(self).wf(),
    {
        let mut s0 = self.sq[0];
        s0.half();
        let mut s1 = self.sq[1];
        s1.half();
        self.sq = [s0, s1];
        proof { lemma_square_pair(self.sq, s0, s1); }
        self.tri.len.half();
        self.noise.len.half();
    }

    fn schedule_rises(&mut self)
        requires
            old(self).wf(),
        ensures
            *final(self) == old(self).rises_scheduled(),
            final(self).wf(),
            final(self).h == old(self).h,
            final(self).tables == old(self).tables,
            final(self).pending == old(self).pending,
    {
        reveal(Apu::rises_scheduled);
        let five = self.five_step;
        let n = if five { self.tables.frame_5.len() } else { self.tables.frame_4.len() };
        let ghost table = self.frame_table();
        let ghost init: FrameDue = (self.frame_due, self.tri_due, self.sq_len_due);
        let pos = self.frame_pos;
        let mut fd = self.frame_due;
        let mut td = self.tri_due;
        let mut sd = self.sq_len_due;
        let mut k: usize = 0;
        while k < n
            invariant
                n == table.len(),
                table == self.frame_table(),
                five == self.five_step,
                k <= n,
                (fd, td, sd) == scan_rises(table.take(k as int), pos, init),
            decreases n - k,
        {
            let (at, phase) = if five { self.tables.frame_5[k] } else { self.tables.frame_4[k] };
            assert(table.take((k + 1) as int).drop_last() =~= table.take(k as int));
            if at == pos {
                fd = Some((phase, fit::FRAME_EFFECT_LAG));
                td = Some(fit::TRI_FRAME_LAG);
                if phase != 0 && phase != 2 {
                    sd = Some(fit::SQ_LENGTH_LAG);
                }
            }
            k = k + 1;
        }
        assert(table.take(n as int) =~= table);
        self.frame_due = fd;
        self.tri_due = td;
        self.sq_len_due = sd;
    }

    fn count_dues(&mut self)
        requires
            old(self).wf(),
        ensures
            *final(self) == old(self).dues_counted(),
            final(self).wf(),
            final(self).h == old(self).h,
            final(self).tables == old(self).tables,
            final(self).pending == old(self).pending,
    {
        self.count_sq_len_due();
        self.count_tri_due();
        self.land_frame_phase();
    }

    fn count_sq_len_due(&mut self)
        requires
            old(self).wf(),
        ensures
            *final(self) == old(self).sq_len_due_counted(),
            final(self).wf(),
    {
        match self.sq_len_due {
            Some(d) => {
                if d == 0 {
                    self.sq_len_due = None;
                    let mut s0 = self.sq[0];
                    s0.len.half();
                    let mut s1 = self.sq[1];
                    s1.len.half();
                    self.sq = [s0, s1];
                    proof { lemma_square_pair(self.sq, s0, s1); }
                } else {
                    self.sq_len_due = Some(d - 1);
                }
            },
            None => {},
        }
    }

    fn count_tri_due(&mut self)
        requires
            old(self).wf(),
        ensures
            *final(self) == old(self).tri_due_counted(),
            final(self).wf(),
    {
        match self.tri_due {
            Some(d) => {
                if d == 0 {
                    self.tri_due = None;
                    self.tri.quarter();
                } else {
                    self.tri_due = Some(d - 1);
                }
            },
            None => {},
        }
    }

    /// The frame phase's countdown: at zero its effect lands (a quarter
    /// clock for phases 0 and 2; quarter and half otherwise, phase 3
    /// raising the frame IRQ unless inhibited).
    fn land_frame_phase(&mut self)
        requires
            old(self).wf(),
        ensures
            *final(self) == old(self).frame_phase_landed(),
            final(self).wf(),
    {
        match self.frame_due {
            Some(f) => {
                if f.1 == 0 {
                    self.frame_due = None;
                    if f.0 == 0 || f.0 == 2 {
                        self.quarter();
                    } else if f.0 == 3 {
                        self.quarter();
                        self.half();
                        if !self.irq_inhibit {
                            self.frame_irq = true;
                        }
                    } else {
                        self.quarter();
                        self.half();
                    }
                } else {
                    self.frame_due = Some((f.0, f.1 - 1));
                }
            },
            None => {},
        }
    }

    fn advance_frame(&mut self)
        requires
            old(self).wf(),
        ensures
            *final(self) == old(self).frame_advanced(),
            final(self).wf(),
            final(self).h == old(self).h,
            final(self).tables == old(self).tables,
            final(self).pending == old(self).pending,
    {
        reveal(Apu::frame_advanced);
        if self.frame_hold > 0 {
            self.frame_hold = self.frame_hold - 1;
        } else {
            let (first, period) = if self.five_step {
                (self.tables.frame_5[0].0, self.tables.frame_5_period)
            } else {
                (self.tables.frame_4[0].0, self.tables.frame_4_period)
            };
            self.frame_pos = self.frame_pos + 1;
            if self.frame_pos >= first + period {
                self.frame_pos = first;
            }
        }
    }

    #[verifier::spinoff_prover]
    #[verifier::rlimit(40)]
    fn tick_timers(&mut self)
        requires
            old(self).wf(),
        ensures
            *final(self) == old(self).timers_ticked(),
            final(self).wf(),
            final(self).h == old(self).h,
            final(self).tables == old(self).tables,
            final(self).pending == old(self).pending,
    {
        reveal(Apu::timers_ticked);
        let q = self.h % 4;
        assert((q + fit::SQ_TICK_PHASE) % 4 == (self.h + fit::SQ_TICK_PHASE) % 4);
        assert((q + fit::TRI_TICK_PHASE) % 2 == (self.h + fit::TRI_TICK_PHASE) % 2);
        assert((q + fit::LFSR_TICK_PHASE) % 4 == (self.h + fit::LFSR_TICK_PHASE) % 4);
        if (q + fit::SQ_TICK_PHASE) % 4 == 0 {
            let mut s0 = self.sq[0];
            s0.tick();
            let mut s1 = self.sq[1];
            s1.tick();
            self.sq = [s0, s1];
            proof { lemma_square_pair(self.sq, s0, s1); }
        }
        if (q + fit::TRI_TICK_PHASE) % 2 == 0 {
            self.tri.tick();
        }
        if (q + fit::LFSR_TICK_PHASE) % 4 == 0 {
            self.noise.tick();
            self.dmc.tick();
        }
    }

    fn step_units<B: SampleBus>(&mut self, bus: &mut B) -> (b: u8)
        requires
            old(self).wf(),
            old(self).h < u64::MAX,
        ensures
            *final(self) == old(self).units_stepped(b),
            final(self).wf(),
            final(bus).reads() == old(bus).reads() + old(self).dmc.step_reads(b),
            final(self).h == old(self).h + 1,
            final(self).tables == old(self).tables,
            final(self).pending == old(self).pending,
    {
        reveal(Apu::units_stepped);
        self.noise.half_step();
        let b = self.dmc.half_step(bus);
        let c0 = self.sq[0].out(&self.tables.duty);
        let c1 = self.sq[1].out(&self.tables.duty);
        let c2 = self.noise.out();
        proof {
            lemma_codes_fit(self.sq[0], self.tables.duty);
            lemma_codes_fit(self.sq[1], self.tables.duty);
            lemma_noise_code_fits(self.noise);
        }
        let i = (self.h % 4) as usize;
        self.sq_lag[i] = [c0, c1, c2];
        self.h = self.h + 1;
        b
    }

    /// One CPU half-cycle: the pending write takes effect, the frame
    /// sequencer schedules and lands its effects and moves on, the
    /// timers tick on their grains, the noise and the DMC take their
    /// half-steps (reading a sample byte from `bus` when a fetch is due),
    /// and the lagged codes are recorded. The bus is read exactly as
    /// `step_reads` says: the enable's fetch and the refill, each at the
    /// DMC's cursor, and nothing else.
    pub fn half_step<B: SampleBus>(&mut self, bus: &mut B)
        requires
            old(self).wf(),
            old(self).half_cycles() < u64::MAX,
        ensures
            exists|b1: u8, b2: u8|
                #![trigger old(self).stepped(b1, b2)]
                *final(self) == old(self).stepped(b1, b2) && final(bus).reads() == old(bus).reads()
                    + old(self).step_reads(b1, b2),
            final(self).wf(),
            final(self).half_cycles() == old(self).half_cycles() + 1,
            !final(self).has_pending_write(),
            final(self).table_set() == old(self).table_set(),
    {
        let ghost s0 = *self;
        reveal(Apu::write_applied);
        let b1 = match self.pending {
            Some(p) => {
                self.pending = None;
                self.apply(p.0, p.1, bus)
            },
            None => 0,
        };
        assert(*self == s0.write_applied(b1));
        self.schedule_rises();
        self.count_dues();
        self.advance_frame();
        self.tick_timers();
        let b2 = self.step_units(bus);
        assert(*self == s0.stepped(b1, b2));
        assert(bus.reads() =~= old(bus).reads() + s0.step_reads(b1, b2));
    }

    /// The DMC's sample fetch of this half-step, if any, consumed: the
    /// address and whether the enable write asked for it.
    pub fn take_dmc_fetch(&mut self) -> (f: Option<(u16, bool)>)
        requires
            old(self).wf(),
        ensures
            f == old(self).dmc_last_fetch(),
            *final(self) == old(self).fetch_taken(),
            final(self).wf(),
            final(self).half_cycles() == old(self).half_cycles(),
            final(self).has_pending_write() == old(self).has_pending_write(),
            final(self).table_set() == old(self).table_set(),
    {
        let f = self.dmc.fetched;
        self.dmc.fetched = None;
        f
    }

    /// Back to the state at the pin contract's h=0, on the same tables.
    pub fn power_cycle(&mut self)
        requires
            old(self).wf(),
        ensures
            *final(self) == Apu::power_on(old(self).table_set()),
            final(self).wf(),
            !final(self).has_pending_write(),
            final(self).half_cycles() == 0,
            final(self).table_set() == old(self).table_set(),
    {
        let s0 = Square::new(false);
        let s1 = Square::new(true);
        let sq = [s0, s1];
        proof {
            lemma_square_pair(sq, s0, s1);
        }
        self.sq = sq;
        self.tri = Triangle::new();
        self.noise = Noise::new(&self.tables);
        self.dmc = Dmc::new(&self.tables);
        self.frame_pos = frame_pos_at_h0(&self.tables);
        self.frame_hold = 0;
        self.five_step = false;
        self.irq_inhibit = false;
        self.frame_irq = false;
        self.h = 0;
        self.sq_lag = [[0u8, 0u8, 0u8], [0u8, 0u8, 0u8], [0u8, 0u8, 0u8], [0u8, 0u8, 0u8]];
        self.frame_due = None;
        self.tri_due = None;
        self.sq_len_due = None;
        self.pending = None;
    }

    /// The five output codes on `sq0_out`, `sq1_out`, `tri_out`,
    /// `noi_out` (4 bits) and `pcm_out` (7 bits).
    pub fn codes(&self) -> (c: [u8; 5])
        requires
            self.wf(),
        ensures
            c@ == self.output_codes(),
    {
        let i = ((self.h % 4 + 4 - 1 - fit::SQ_OUT_LAG) % 4) as usize;
        assert(i == (self.h + 4 - 1 - fit::SQ_OUT_LAG) % 4);
        let lagged = self.sq_lag[i];
        let c = [lagged[0], lagged[1], self.tri.out(), lagged[2], self.dmc.out];
        assert(c@ =~= self.output_codes());
        c
    }
}

/// The two squares as the APU holds them.
#[verifier::opaque]
pub closed spec fn pair(a: Square, b: Square) -> [Square; 2] {
    [a, b]
}

/// Two square pairs with equal elements are equal.
proof fn lemma_square_pair(a: [Square; 2], x: Square, y: Square)
    requires
        a[0] == x,
        a[1] == y,
    ensures
        a == pair(x, y),
{
    reveal(pair);
    assert(a =~= pair(x, y));
}

proof fn lemma_status_bits(b0: u8, b1: u8, b2: u8, b3: u8, b4: u8, b6: u8, b7: u8)
    requires
        b0 == 0 || b0 == 1,
        b1 == 0 || b1 == 2,
        b2 == 0 || b2 == 4,
        b3 == 0 || b3 == 8,
        b4 == 0 || b4 == 0x10,
        b6 == 0 || b6 == 0x40,
        b7 == 0 || b7 == 0x80,
    ensures
        ({
            let v = b0 | b1 | b2 | b3 | b4 | b6 | b7;
            &&& ((v >> 0u8) & 1 == 1 <==> b0 != 0)
            &&& ((v >> 1u8) & 1 == 1 <==> b1 != 0)
            &&& ((v >> 2u8) & 1 == 1 <==> b2 != 0)
            &&& ((v >> 3u8) & 1 == 1 <==> b3 != 0)
            &&& ((v >> 4u8) & 1 == 1 <==> b4 != 0)
            &&& (v >> 5u8) & 1 == 0
            &&& ((v >> 6u8) & 1 == 1 <==> b6 != 0)
            &&& ((v >> 7u8) & 1 == 1 <==> b7 != 0)
        }),
{
    assert({
        let v = b0 | b1 | b2 | b3 | b4 | b6 | b7;
        &&& ((v >> 0u8) & 1 == 1 <==> b0 != 0)
        &&& ((v >> 1u8) & 1 == 1 <==> b1 != 0)
        &&& ((v >> 2u8) & 1 == 1 <==> b2 != 0)
        &&& ((v >> 3u8) & 1 == 1 <==> b3 != 0)
        &&& ((v >> 4u8) & 1 == 1 <==> b4 != 0)
        &&& (v >> 5u8) & 1 == 0
        &&& ((v >> 6u8) & 1 == 1 <==> b6 != 0)
        &&& ((v >> 7u8) & 1 == 1 <==> b7 != 0)
    }) by (bit_vector)
        requires
            b0 == 0 || b0 == 1,
            b1 == 0 || b1 == 2,
            b2 == 0 || b2 == 4,
            b3 == 0 || b3 == 8,
            b4 == 0 || b4 == 0x10,
            b6 == 0 || b6 == 0x40,
            b7 == 0 || b7 == 0x80,
    ;
}

/// A square's code is a 4-bit value.
pub proof fn lemma_codes_fit(s: Square, duty: [u8; 4])
    requires
        s.wf(),
    ensures
        s.code(duty) <= 15,
{
}

/// The noise's code is a 4-bit value.
pub proof fn lemma_noise_code_fits(n: Noise)
    requires
        n.wf(),
    ensures
        n.code() <= 15,
{
}


// ---------------------------------------------------------------------
// Laws.
// ---------------------------------------------------------------------

proof fn lemma_length_counts_down(l: Length, k: nat)
    requires
        !l.halt,
        !l.expired,
        k <= l.count,
    ensures
        l.halved_times(k) == (Length { count: (l.count - k) as u8, ..l }),
    decreases k,
{
    if k > 0 {
        lemma_length_counts_down(l, (k - 1) as nat);
    }
}

proof fn lemma_length_stays_expired(l: Length, k: nat)
    requires
        l.expired,
    ensures
        l.halved_times(k) == l,
    decreases k,
{
    if k > 0 {
        lemma_length_stays_expired(l, (k - 1) as nat);
    }
}

proof fn lemma_halved_times_split(l: Length, a: nat, b: nat)
    ensures
        l.halved_times(a + b) == l.halved_times(a).halved_times(b),
    decreases b,
{
    if b > 0 {
        lemma_halved_times_split(l, a, (b - 1) as nat);
        assert(((a + b) - 1) as nat == a + (b - 1) as nat);
    }
}

/// A length counter loaded while enabled and not halted plays for
/// exactly the loaded table value plus one half-frame clocks: the die
/// holds n-1 and a channel plays n clocks.
pub proof fn law_length_plays_loaded_value_plus_one(l: Length, idx: u8, table: [u8; 32], k: nat)
    requires
        l.is_enabled(),
        !l.is_halted(),
    ensures
        l.loaded(idx, table).halved_times(k).is_playing() <==> k <= table[(idx & 31) as int],
{
    let m = l.loaded(idx, table);
    let n = table[(idx & 31) as int] as nat;
    if k <= n {
        lemma_length_counts_down(m, k);
    } else {
        lemma_length_counts_down(m, n);
        let e = m.halved_times(n).halved();
        assert(e.expired);
        lemma_halved_times_split(m, n + 1, (k - n - 1) as nat);
        lemma_length_stays_expired(e, (k - n - 1) as nat);
    }
}

/// The length counter's load and enable: a load while disabled changes
/// nothing; a load while enabled sets the count to the table's entry at
/// index `idx & 31` and playing, keeping the halt; enabling keeps the
/// count and its state; disabling zeroes and expires it.
pub proof fn law_length_load_and_enable(l: Length, idx: u8, table: [u8; 32])
    ensures
        !l.is_enabled() ==> l.loaded(idx, table) == l,
        l.is_enabled() ==> l.loaded(idx, table).is_playing() && l.loaded(idx, table).is_halted() == l.is_halted()
            && l.loaded(idx, table).is_enabled(),
        l.is_enabled() ==> l.loaded(idx, table).count_value() == table[(idx & 31) as int],
        !l.is_enabled() ==> l.loaded(idx, table).count_value() == l.count_value(),
        l.switched(true).is_enabled() && l.switched(true).count_value() == l.count_value()
            && l.switched(true).is_playing() == l.is_playing() && l.switched(true).is_halted() == l.is_halted(),
        !l.switched(false).is_playing() && !l.switched(false).is_enabled() && l.switched(false).count_value() == 0,
        !l.is_halted() && l.is_playing() && l.count_value() > 0 ==> l.halved().count_value() == l.count_value() - 1
            && l.halved().is_playing(),
        !l.is_halted() && l.is_playing() && l.count_value() == 0 ==> !l.halved().is_playing(),
        l.is_halted() ==> l.halved() == l,
{
}

/// The `$4017` write's hold and the mode-1 write's lead: the hold is 0
/// on the measured write parity (`h % 4 == write_short_phase`) and the
/// jitter otherwise; the lead is the mode-1 clock less the squares'
/// length lag (3) plus the hold, for tables whose mode-1 clock and
/// jitter fit the APU's `u8` countdowns.
pub proof fn law_write_hold_and_lead(a: Apu)
    requires
        a.wf(),
        a.table_set().mode1_clock < 259,
        a.table_set().frame_jitter < 256,
    ensures
        a.write_hold() == (if a.half_cycles() % 4 == a.table_set().write_short_phase {
            0
        } else {
            a.table_set().frame_jitter
        }),
        a.mode1_lead() == a.table_set().mode1_clock - 3 + a.write_hold(),
{
}

/// A channel whose length is disabled reports stopped: disabling
/// zeroes the counter and expires it, and no half-frame clock revives it.
pub proof fn law_disabled_length_stays_silent(l: Length, k: nat)
    ensures
        !l.switched(false).halved_times(k).is_playing(),
{
    lemma_length_stays_expired(l.switched(false), k);
}

/// The sweep moves the period only when its divider runs out: on a
/// half-frame clock with the divider nonzero the period stays and the
/// divider counts down one (or reloads, when a sweep write asked); with
/// the divider at zero, the sweep enabled with a nonzero shift and the
/// channel unmuted, the period becomes the target (`p + (p >> shift)`
/// unnegated) and the divider reloads its period.
pub proof fn law_sweep_moves_only_when_divider_runs_out(s: Square)
    ensures
        s.sweep_divider() != 0 ==> s.swept().sweep_inputs().0 == s.sweep_inputs().0,
        s.sweep_divider() != 0 && !s.sweep_setup().2 ==> s.swept().sweep_divider() == s.sweep_divider() - 1,
        (s.sweep_divider() == 0 || s.sweep_setup().2) ==> s.swept().sweep_divider() == s.sweep_setup().1,
        s.sweep_divider() == 0 && s.sweep_setup().0 && s.sweep_inputs().1 > 0 && !s.is_muted() && s.sweep_target() >= 0
            ==> s.swept().sweep_inputs().0 == s.sweep_target(),
        s.sweep_divider() == 0 && s.sweep_setup().0 && s.sweep_inputs().1 > 0 && !s.is_muted() && !s.sweep_inputs().2
            ==> s.swept().sweep_inputs().0 == s.sweep_inputs().0 + (s.sweep_inputs().0 >> s.sweep_inputs().1),
        !(s.sweep_setup().0 && s.sweep_inputs().1 > 0) ==> s.swept().sweep_inputs().0 == s.sweep_inputs().0,
{
}

/// The triangle's linear counter on a quarter-frame clock: while the
/// reload flag stands the counter loads the reload value, otherwise it
/// counts down to zero; the flag survives exactly while the control bit
/// is set.
pub proof fn law_linear_counter_quarter(t: Triangle)
    ensures
        t.linear().0 ==> t.quartered().linear().1 == t.linear().1,
        !t.linear().0 ==> !t.quartered().linear().1,
        t.linear().1 ==> t.quartered().linear().2 == t.linear().3,
        !t.linear().1 && t.linear().2 > 0 ==> t.quartered().linear().2 == t.linear().2 - 1,
        !t.linear().1 && t.linear().2 == 0 ==> t.quartered().linear().2 == 0,
        t.quartered().linear().0 == t.linear().0,
        t.quartered().linear().3 == t.linear().3,
{
}

/// The triangle after `k` quarter-frame clocks and nothing else.
pub open spec fn triangle_quartered_times(t: Triangle, k: nat) -> Triangle
    decreases k,
{
    if k == 0 {
        t
    } else {
        triangle_quartered_times(t, (k - 1) as nat).quartered()
    }
}

/// With the control bit set and the reload flag standing, every
/// quarter-frame clock reloads the linear counter: after any number of
/// them (at least one) the flag still stands and the counter is the
/// reload value, so the sequencer never stops for it.
pub proof fn law_controlled_linear_counter_keeps_reloading(t: Triangle, k: nat)
    requires
        t.linear().0,
        t.linear().1,
    ensures
        triangle_quartered_times(t, k).linear().0,
        triangle_quartered_times(t, k).linear().1,
        triangle_quartered_times(t, k).linear().3 == t.linear().3,
        k >= 1 ==> triangle_quartered_times(t, k).linear().2 == t.linear().3,
    decreases k,
{
    if k > 0 {
        law_controlled_linear_counter_keeps_reloading(t, (k - 1) as nat);
    }
}

/// A noise timer tick loads, at the terminal, the reload row of the
/// period index last written to `$400E`; elsewhere it shifts the LFSR
/// register (the taps' XOR fed in at bit 0). The period index and the
/// timer's shape stay.
pub proof fn law_noise_timer_reloads_its_period_row(n: Noise)
    ensures
        n.noise_timer().state() == n.noise_timer().shape_of().terminal ==> n.ticked().noise_timer().state()
            == n.noise_timer().shape_of().reload[(n.period_index() & 15) as int] as u32,
        n.noise_timer().state() != n.noise_timer().shape_of().terminal ==> n.ticked().noise_timer().state()
            == n.noise_timer().shifted(),
        n.ticked().period_index() == n.period_index(),
        n.ticked().noise_timer().shape_of() == n.noise_timer().shape_of(),
{
}

/// A DMC timer tick loads, at the terminal, the reload row of the rate
/// index last written to `$4010`; elsewhere it shifts the register.
pub proof fn law_dmc_timer_reloads_its_rate_row(d: Dmc)
    ensures
        d.dmc_timer().state() == d.dmc_timer().shape_of().terminal ==> d.ticked().dmc_timer().state()
            == d.dmc_timer().shape_of().reload[(d.rate_index() & 15) as int] as u32,
        d.dmc_timer().state() != d.dmc_timer().shape_of().terminal ==> d.ticked().dmc_timer().state()
            == d.dmc_timer().shifted(),
        d.ticked().rate_index() == d.rate_index(),
{
}

/// The envelope's register bits and volume: a write sets the period
/// (the low four bits), the constant-volume flag (bit 4) and the loop
/// flag (bit 5), and keeps the decay; the volume is the period while
/// constant, else the decay.
pub proof fn law_envelope_register_and_volume(e: Envelope, v: u8)
    ensures
        e.written(v).period_value() == v & 0x0f,
        e.written(v).is_constant() == (v & 0x10 != 0),
        e.written(v).loops() == (v & 0x20 != 0),
        e.written(v).decay_level() == e.decay_level(),
        e.is_constant() ==> e.level() == e.period_value(),
        !e.is_constant() ==> e.level() == e.decay_level(),
{
}

/// The square's four registers: `$4000` sets the duty (bits 6-7), the
/// envelope and the length halt (bit 5); `$4001` the sweep (enable bit
/// 7, divider period bits 4-6, negate bit 3, shift bits 0-2) with a
/// divider reload asked; `$4002` the period's low byte, the next tick
/// reloading; `$4003` the period's high three bits, the length loaded
/// from index `v >> 3`, the envelope started and the sequencer back to
/// step 0.
pub proof fn law_square_registers(s: Square, reg: u8, v: u8, length: [u8; 32])
    ensures
        reg & 3 == 0 ==> {
            &&& s.written(reg, v, length).duty_index() == v >> 6u8
            &&& s.written(reg, v, length).envelope() == s.envelope().written(v)
            &&& s.written(reg, v, length).length().is_halted() == (v & 0x20 != 0)
            &&& s.written(reg, v, length).sweep_inputs().0 == s.sweep_inputs().0
        },
        reg & 3 == 1 ==> {
            &&& s.written(reg, v, length).sweep_setup() == (v & 0x80 != 0, (v >> 4u8) & 7, true)
            &&& s.written(reg, v, length).sweep_inputs() == (s.sweep_inputs().0, v & 7, v & 0x08 != 0)
        },
        reg & 3 == 2 ==> {
            &&& s.written(reg, v, length).sweep_inputs().0 == (s.sweep_inputs().0 & 0x700) | (v as u16)
            &&& s.written(reg, v, length).reload_due()
            &&& s.written(reg, v, length).sequencer_step() == s.sequencer_step()
        },
        reg & 3 == 3 ==> {
            &&& s.written(reg, v, length).sweep_inputs().0 == (s.sweep_inputs().0 & 0xff) | (((v as u16) & 7) << 8u16)
            &&& s.written(reg, v, length).length() == s.length().loaded(v >> 3u8, length)
            &&& s.written(reg, v, length).envelope() == s.envelope().started()
            &&& s.written(reg, v, length).sequencer_step() == 0
        },
{
}

/// The square's code: on a step the duty sequence marks high (bit
/// `step` of `duty[duty_index]`), with the length playing and the
/// channel unmuted, it is the envelope's volume; otherwise silence.
pub proof fn law_square_code(s: Square, duty: [u8; 4])
    ensures
        ((duty[s.duty_index() as int] >> s.sequencer_step()) & 1 == 1 && s.length().is_playing() && !s.is_muted())
            ==> s.code(duty) == s.envelope().level(),
        !((duty[s.duty_index() as int] >> s.sequencer_step()) & 1 == 1 && s.length().is_playing() && !s.is_muted())
            ==> s.code(duty) == 0,
{
    let w: u8 = duty[s.duty_index() as int];
    let st: u8 = s.sequencer_step();
    assert(((w >> st) & 1) != 0 <==> ((w >> st) & 1) == 1) by (bit_vector);
}

/// The triangle's registers: `$4008` sets the control bit (bit 7, also
/// the length halt) and the linear reload value (bits 0-6); `$400A` the
/// period's low byte, the next tick reloading; `$400B` the period's high
/// three bits, the length loaded from index `v >> 3`, and the linear
/// reload flag; `$4009` is not the triangle's.
pub proof fn law_triangle_registers(t: Triangle, reg: u8, v: u8, length: [u8; 32])
    ensures
        reg & 3 == 0 ==> {
            &&& t.written(reg, v, length).linear() == (v & 0x80 != 0, t.linear().1, t.linear().2, v & 0x7f)
            &&& t.written(reg, v, length).tri_length().is_halted() == (v & 0x80 != 0)
        },
        reg & 3 == 1 ==> t.written(reg, v, length) == t,
        reg & 3 == 2 ==> {
            &&& t.written(reg, v, length).period_value() == (t.period_value() & 0x700) | (v as u16)
            &&& t.written(reg, v, length).reload_due()
        },
        reg & 3 == 3 ==> {
            &&& t.written(reg, v, length).period_value() == (t.period_value() & 0xff) | (((v as u16) & 7) << 8u16)
            &&& t.written(reg, v, length).tri_length() == t.tri_length().loaded(v >> 3u8, length)
            &&& t.written(reg, v, length).linear().1
        },
{
}

/// The noise's registers: `$400C` sets the envelope and the length halt
/// (bit 5); `$400E` the mode (bit 7) and the period index (bits 0-3);
/// `$400F` loads the length from index `v >> 3` and starts the
/// envelope; `$400D` is not the noise's.
pub proof fn law_noise_registers(n: Noise, reg: u8, v: u8, length: [u8; 32])
    ensures
        reg & 3 == 0 ==> {
            &&& n.written(reg, v, length).noise_envelope() == n.noise_envelope().written(v)
            &&& n.written(reg, v, length).noise_length().is_halted() == (v & 0x20 != 0)
        },
        reg & 3 == 1 ==> n.written(reg, v, length) == n,
        reg & 3 == 2 ==> {
            &&& n.written(reg, v, length).short_mode() == (v & 0x80 != 0)
            &&& n.written(reg, v, length).period_index() == v & 0x0f
        },
        reg & 3 == 3 ==> {
            &&& n.written(reg, v, length).noise_length() == n.noise_length().loaded(v >> 3u8, length)
            &&& n.written(reg, v, length).noise_envelope() == n.noise_envelope().started()
        },
{
}

/// The noise's LFSR shift, bit by bit: every bit moves up one (bit 14
/// leaving), and bit 0 takes bit 14 XOR the tap, bit 8 in the short mode
/// and bit 13 otherwise; the register stays 15 bits.
pub proof fn law_noise_lfsr_shift(l: u16, short: bool)
    ensures
        forall|i: u16| 0 <= i < 14 ==> (#[trigger] (Noise::lfsr_shifted(l, short) >> (i + 1) as u16)) & 1 == (l >> i) & 1,
        Noise::lfsr_shifted(l, short) & 1 == ((l >> 14u16) & 1) ^ (if short { (l >> 8u16) & 1 } else { (l >> 13u16) & 1 }),
        Noise::lfsr_shifted(l, short) >> 15u16 == 0,
{
    let c14 = (l >> 14u16) & 1;
    let tap = if short { (l >> 8u16) & 1 } else { (l >> 13u16) & 1 };
    let r = Noise::lfsr_shifted(l, short);
    assert((l >> 14u16) & 1 <= 1 && (l >> 8u16) & 1 <= 1 && (l >> 13u16) & 1 <= 1) by (bit_vector);
    assert(r == ((l << 1u16) & 0x7fff) | (c14 ^ tap));
    assert(forall|i: u16| 0 <= i < 14 ==> #[trigger] ((((l << 1u16) & 0x7fff) | (c14 ^ tap)) >> (i + 1) as u16) & 1
        == (l >> i) & 1) by (bit_vector)
        requires
            c14 <= 1,
            tap <= 1,
    ;
    assert(((((l << 1u16) & 0x7fff) | (c14 ^ tap)) & 1) == c14 ^ tap) by (bit_vector)
        requires
            c14 <= 1,
            tap <= 1,
    ;
    assert(((((l << 1u16) & 0x7fff) | (c14 ^ tap)) >> 15u16) == 0) by (bit_vector)
        requires
            c14 <= 1,
            tap <= 1,
    ;
}

/// The noise's half-step: on the timer's clock the LFSR shifts, else it
/// holds; and its code is the envelope's volume while bit 14 is clear on
/// a playing channel, else silence.
pub proof fn law_noise_step_and_code(n: Noise)
    ensures
        n.noise_timer().counted().1 ==> n.stepped().lfsr_bits() == Noise::lfsr_shifted(n.lfsr_bits(), n.short_mode()),
        !n.noise_timer().counted().1 ==> n.stepped().lfsr_bits() == n.lfsr_bits(),
        n.stepped().short_mode() == n.short_mode(),
        ((n.lfsr_bits() >> 14u16) & 1 == 0 && n.noise_length().is_playing()) ==> n.code() == n.noise_envelope().level(),
        !((n.lfsr_bits() >> 14u16) & 1 == 0 && n.noise_length().is_playing()) ==> n.code() == 0,
{
}

/// The DMC's registers: `$4010` sets the loop flag (bit 6), the IRQ
/// enable (bit 7, clearing the flag when off) and the rate index (bits
/// 0-3); `$4011` the 7-bit level; `$4012` the sample start
/// `$C000 + 64 v`; `$4013` the sample length `16 v + 1`.
pub proof fn law_dmc_registers(d: Dmc, reg: u8, v: u8)
    ensures
        reg & 3 == 0 ==> {
            &&& d.written(reg, v).irq_state() == (v & 0x40 != 0, v & 0x80 != 0, v & 0x80 != 0 && d.irq_state().2)
            &&& d.written(reg, v).rate_index() == v & 0x0f
        },
        reg & 3 == 1 ==> d.written(reg, v).level() == v & 0x7f,
        reg & 3 == 2 ==> d.written(reg, v).sample().0 == 0xc000 + 64 * v && d.written(reg, v).sample().1 == d.sample().1,
        reg & 3 == 3 ==> d.written(reg, v).sample().1 == 16 * v + 1 && d.written(reg, v).sample().0 == d.sample().0,
{
}

/// The DMC's half-step: with no clock from its timer only the timer
/// moves; on a clock the level moves by the bit shifted out (bit 0),
/// the shifter shifts right, the bit counter counts modulo 8, and when
/// it wraps a full buffer becomes the next byte (silence off, its refill
/// fetched) while an empty one sets silence.
pub proof fn law_dmc_output_unit(d: Dmc, b: u8)
    ensures
        ({
            let (sh, bits, silence, buffer) = d.output_unit();
            let e = d.stepped_with(b);
            let clocked = d.dmc_timer().counted().1;
            &&& e.dmc_timer() == d.dmc_timer().counted().0
            &&& !clocked ==> e.output_unit() == d.output_unit() && e.level() == d.level()
            &&& clocked ==> e.level() == Dmc::level_after(d.level(), silence, sh & 1 != 0)
            &&& clocked ==> e.output_unit().1 == (bits + 1) % 8
            &&& clocked && (bits + 1) % 8 != 0 ==> e.output_unit() == (sh >> 1u8, ((bits + 1) % 8) as u8, silence, buffer)
            &&& clocked && (bits + 1) % 8 == 0 && buffer is Some ==> e.output_unit().0 == buffer.unwrap()
                && !e.output_unit().2
            &&& clocked && (bits + 1) % 8 == 0 && buffer is None ==> e.output_unit().2 && e.output_unit().3 is None
        }),
{
    reveal(Dmc::stepped_with);
    reveal(Dmc::fetched_with);
}

/// The `$4015` DMC bit: off drops the bytes remaining (keeping the
/// buffer); on with bytes remaining and a full buffer changes nothing
/// of the sample; on with none remaining restarts the sample at its
/// start with its full length; on with an empty buffer fetches the next
/// byte at once (from the start after a restart), marked as the
/// enable's.
pub proof fn law_dmc_enable(d: Dmc, b: u8)
    ensures
        d.enabled_with(false, b).bytes_left() == 0,
        d.enabled_with(false, b).output_unit() == d.output_unit(),
        d.bytes_left() > 0 && d.output_unit().3 is Some ==> d.enabled_with(true, b).bytes_left() == d.bytes_left()
            && d.enabled_with(true, b).cursor() == d.cursor(),
        d.bytes_left() == 0 && d.output_unit().3 is Some ==> d.enabled_with(true, b).bytes_left() == d.sample().1
            && d.enabled_with(true, b).cursor() == d.sample().0,
        d.bytes_left() == 0 && d.output_unit().3 is None && d.sample().1 > 1 ==> {
            &&& d.enabled_with(true, b).fetch_mark() == Some((d.sample().0, true))
            &&& d.enabled_with(true, b).output_unit().3 == Some(b)
            &&& d.enabled_with(true, b).bytes_left() == d.sample().1 - 1
            &&& d.enabled_with(true, b).cursor() == Dmc::next_addr(d.sample().0)
        },
        d.bytes_left() > 1 && d.output_unit().3 is None ==> {
            &&& d.enabled_with(true, b).fetch_mark() == Some((d.cursor(), true))
            &&& d.enabled_with(true, b).output_unit().3 == Some(b)
            &&& d.enabled_with(true, b).bytes_left() == d.bytes_left() - 1
        },
{
    reveal(Dmc::enabled_with);
    reveal(Dmc::fetched_with);
}

/// The DMC level moves by the bit shifted out: up two on a set bit (not
/// past 127), down two on a clear one (not below 0), held in silence.
pub proof fn law_dmc_level_moves_by_two(out: u8, silence: bool, bit: bool)
    ensures
        silence ==> Dmc::level_after(out, silence, bit) == out,
        !silence && bit && out <= 125 ==> Dmc::level_after(out, silence, bit) == out + 2,
        !silence && bit && out > 125 ==> Dmc::level_after(out, silence, bit) == out,
        !silence && !bit && out >= 2 ==> Dmc::level_after(out, silence, bit) == out - 2,
        !silence && !bit && out < 2 ==> Dmc::level_after(out, silence, bit) == out,
{
}

/// The two squares' negated sweeps differ by one: square 0 subtracts
/// the ones' complement, square 1 the two's; unnegated they agree.
pub proof fn law_sweep_complements(a: Square, b: Square)
    requires
        !a.is_second(),
        b.is_second(),
        a.sweep_inputs() == b.sweep_inputs(),
    ensures
        a.sweep_inputs().2 ==> a.sweep_target() == b.sweep_target() - 1,
        !a.sweep_inputs().2 ==> a.sweep_target() == b.sweep_target(),
{
}

proof fn lemma_square_ticks_add(s: Square, a: nat, b: nat)
    ensures
        s.ticked_times(a + b) == s.ticked_times(a).ticked_times(b),
    decreases a,
{
    reveal(Square::ticked_times);
    if a > 0 {
        lemma_square_ticks_add(s.ticked(), (a - 1) as nat, b);
        assert(s.ticked_times(a + b) == s.ticked().ticked_times((a + b - 1) as nat));
    }
}

/// Without a reload due, `i` ticks with `i` up to the count only count
/// the timer down.
proof fn lemma_square_counts_down(s: Square, i: nat)
    requires
        !s.reload_pending,
        i <= s.timer,
    ensures
        s.ticked_times(i) == (Square { timer: (s.timer - i) as u32, ..s }),
    decreases i,
{
    reveal(Square::ticked_times);
    if i > 0 {
        let s1 = s.ticked();
        assert(s1 == (Square { timer: (s.timer - 1) as u32, ..s }));
        lemma_square_counts_down(s1, (i - 1) as nat);
    }
}

/// One period of a square's timer: from a reload, `period + 1` ticks
/// step the sequencer down one and reload the timer.
proof fn lemma_square_one_period(s: Square)
    requires
        !s.reload_pending,
        s.timer == s.period,
        s.period != 0,
    ensures
        s.ticked_times((s.period + 1) as nat) == (Square { step: ((s.step + 7) % 8) as u8, ..s }),
{
    let p = s.period as nat;
    lemma_square_counts_down(s, p);
    let z = s.ticked_times(p);
    assert(z.ticked_times(1) == z.ticked()) by {
        reveal(Square::ticked_times);
        assert(z.ticked().ticked_times(0) == z.ticked());
    }
    lemma_square_ticks_add(s, p, 1);
}

/// A square's sequencer steps once every `period + 1` timer ticks: from
/// a reload (no reload due, the timer at a nonzero period), after `j`
/// whole periods the step has moved down `j` places (mod 8) and the
/// timer stands at the period again, and no tick inside a period moves
/// the step.
pub proof fn law_square_steps_every_period_plus_one_ticks(s: Square, j: nat, i: nat)
    requires
        s.wf(),
        !s.reload_due(),
        s.timer_count() == s.sweep_inputs().0,
        s.sweep_inputs().0 != 0,
        i <= s.sweep_inputs().0,
    ensures
        s.ticked_times(j * (s.sweep_inputs().0 + 1) as nat).sequencer_step() == (s.sequencer_step() - j) % 8,
        s.ticked_times(j * (s.sweep_inputs().0 + 1) as nat).timer_count() == s.timer_count(),
        s.ticked_times(j * (s.sweep_inputs().0 + 1) as nat + i).sequencer_step()
            == s.ticked_times(j * (s.sweep_inputs().0 + 1) as nat).sequencer_step(),
    decreases j,
{
    let p = s.period as nat;
    lemma_square_after_periods(s, j);
    let t = s.ticked_times(j * (p + 1));
    lemma_square_counts_down(t, i);
    lemma_square_ticks_add(s, j * (p + 1), i);
}

/// After `j` whole periods from a reload the square differs only in its
/// step, moved down `j` places.
proof fn lemma_square_after_periods(s: Square, j: nat)
    requires
        s.step < 8,
        !s.reload_pending,
        s.timer == s.period,
        s.period != 0,
    ensures
        s.ticked_times(j * (s.period + 1) as nat) == (Square { step: ((s.step - j) % 8) as u8, ..s }),
    decreases j,
{
    let p = s.period as nat;
    if j == 0 {
        assert(j * (p + 1) == 0) by (nonlinear_arith)
            requires
                j == 0,
        ;
        assert((s.step - j) % 8 == s.step);
        assert(s.ticked_times(0) == s) by {
            reveal(Square::ticked_times);
        }
    } else {
        lemma_square_after_periods(s, (j - 1) as nat);
        let t = s.ticked_times(((j - 1) as nat) * (p + 1));
        assert(j * (p + 1) == ((j - 1) as nat) * (p + 1) + (p + 1)) by (nonlinear_arith)
            requires
                j >= 1,
        ;
        lemma_square_ticks_add(s, ((j - 1) as nat) * (p + 1), p + 1);
        lemma_square_one_period(t);
        let x = s.step - (j - 1);
        assert(((x % 8) + 7) % 8 == (x - 1) % 8);
    }
}

proof fn lemma_triangle_ticks_add(t: Triangle, a: nat, b: nat)
    ensures
        t.ticked_times(a + b) == t.ticked_times(a).ticked_times(b),
    decreases a,
{
    reveal(Triangle::ticked_times);
    if a > 0 {
        lemma_triangle_ticks_add(t.ticked(), (a - 1) as nat, b);
        assert(t.ticked_times(a + b) == t.ticked().ticked_times((a + b - 1) as nat));
    }
}

/// Without a reload due, `i` ticks with `i` up to the count only count
/// the timer down.
proof fn lemma_triangle_counts_down(t: Triangle, i: nat)
    requires
        !t.reload_pending,
        i <= t.timer,
    ensures
        t.ticked_times(i) == (Triangle { timer: (t.timer - i) as u32, ..t }),
    decreases i,
{
    reveal(Triangle::ticked_times);
    if i > 0 {
        let t1 = t.ticked();
        assert(t1 == (Triangle { timer: (t.timer - 1) as u32, ..t }));
        lemma_triangle_counts_down(t1, (i - 1) as nat);
    }
}

/// After `j` whole periods from a reload the triangle differs only in
/// its step: moved up `j` places (mod 32) while both counters allow and
/// the period is nonzero, else where it was.
proof fn lemma_triangle_after_periods(t: Triangle, j: nat)
    requires
        t.step < 32,
        !t.reload_pending,
        t.timer == t.period,
    ensures
        t.ticked_times(j * (t.period + 1) as nat) == (Triangle {
            step: if t.lin > 0 && t.len.is_playing() && t.period != 0 {
                ((t.step + j) % 32) as u8
            } else {
                t.step
            },
            ..t
        }),
    decreases j,
{
    let p = t.period as nat;
    let moving = t.lin > 0 && t.len.is_playing() && t.period != 0;
    if j == 0 {
        assert(j * (p + 1) == 0) by (nonlinear_arith)
            requires
                j == 0,
        ;
        assert(t.ticked_times(0) == t) by {
            reveal(Triangle::ticked_times);
        }
    } else {
        lemma_triangle_after_periods(t, (j - 1) as nat);
        let u = t.ticked_times(((j - 1) as nat) * (p + 1));
        assert(j * (p + 1) == ((j - 1) as nat) * (p + 1) + (p + 1)) by (nonlinear_arith)
            requires
                j >= 1,
        ;
        lemma_triangle_ticks_add(t, ((j - 1) as nat) * (p + 1), p + 1);
        lemma_triangle_counts_down(u, p);
        let z = u.ticked_times(p);
        assert(z.ticked_times(1) == z.ticked()) by {
            reveal(Triangle::ticked_times);
            assert(z.ticked().ticked_times(0) == z.ticked());
        }
        lemma_triangle_ticks_add(u, p, 1);
        if moving {
            assert(((t.step + (j - 1)) % 32 + 1) % 32 == (t.step + j) % 32);
        }
    }
}

/// The triangle's sequencer steps once every `period + 1` timer ticks
/// while both counters let it (the linear counter nonzero, the length
/// playing, the period nonzero): from a reload, after `j` whole periods
/// the step has moved up `j` places (mod 32) and the timer stands at the
/// period again, and no tick inside a period moves it. With either
/// counter closed the step, and so the code, holds where it was.
pub proof fn law_triangle_steps_every_period_plus_one_ticks(t: Triangle, j: nat, i: nat)
    requires
        t.wf(),
        !t.reload_due(),
        t.timer_count() == t.period_value(),
        i <= t.period_value(),
    ensures
        t.ticked_times(j * (t.period_value() + 1) as nat).sequence_step() == if t.gate_open()
            && t.period_value() != 0 {
            (t.sequence_step() + j) % 32
        } else {
            t.sequence_step() as int
        },
        t.ticked_times(j * (t.period_value() + 1) as nat).timer_count() == t.timer_count(),
        t.ticked_times(j * (t.period_value() + 1) as nat + i).sequence_step() == t.ticked_times(
            j * (t.period_value() + 1) as nat,
        ).sequence_step(),
{
    let p = t.period as nat;
    lemma_triangle_after_periods(t, j);
    let u = t.ticked_times(j * (p + 1));
    lemma_triangle_counts_down(u, i);
    lemma_triangle_ticks_add(t, j * (p + 1), i);
}

/// A sample fetch consumes one byte at the cursor: short of the last
/// byte the count drops by one and the cursor moves on (wrapping from
/// `$FFFF` to `$8000`); the last byte restarts a looping sample at its
/// start with its full length, and otherwise raises the DMC IRQ exactly
/// when the IRQ is enabled, leaving no bytes. With no bytes left a fetch
/// does nothing.
pub proof fn law_dmc_fetch_consumes_one_byte(d: Dmc, b: u8)
    ensures
        d.bytes_left() == 0 ==> d.fetched_with(b) == d,
        d.bytes_left() > 1 ==> {
            &&& d.fetched_with(b).bytes_left() == d.bytes_left() - 1
            &&& d.fetched_with(b).cursor() == Dmc::next_addr(d.cursor())
            &&& d.fetched_with(b).irq_state() == d.irq_state()
        },
        d.bytes_left() == 1 && d.irq_state().0 ==> {
            &&& d.fetched_with(b).bytes_left() == d.sample().1
            &&& d.fetched_with(b).cursor() == d.sample().0
            &&& d.fetched_with(b).irq_state() == d.irq_state()
        },
        d.bytes_left() == 1 && !d.irq_state().0 ==> {
            &&& d.fetched_with(b).bytes_left() == 0
            &&& d.fetched_with(b).irq_state().2 == (d.irq_state().1 || d.irq_state().2)
        },
        d.fetched_with(b).sample() == d.sample(),
{
    reveal(Dmc::fetched_with);
}

/// The address a sample's byte `k` is read from: `$8000 + ...` wrapping
/// from `$FFFF` to `$8000`.
pub open spec fn sample_byte_addr(start: u16, k: int) -> int {
    if start + k <= 0xffff {
        start + k
    } else {
        start + k - 0x8000
    }
}

impl Dmc {
    /// The DMC after `i` fetches, fetch `k` returning `bytes[k]`.
    pub closed spec fn fetches(self, bytes: Seq<u8>, i: nat) -> Dmc
        decreases i,
    {
        if i == 0 {
            self
        } else {
            self.fetches(bytes, (i - 1) as nat).fetched_with(bytes[i - 1])
        }
    }

    /// The reads those `i` fetches make, in order.
    pub closed spec fn fetches_reads(self, bytes: Seq<u8>, i: nat) -> Seq<(u16, u8)>
        decreases i,
    {
        if i == 0 {
            Seq::empty()
        } else {
            self.fetches_reads(bytes, (i - 1) as nat) + self.fetches(bytes, (i - 1) as nat).fetch_reads(bytes[i - 1])
        }
    }
}

/// A whole sample, fetched from its start without looping: fetch `k`
/// reads byte `k` at `sample_byte_addr(start, k)` (the cursor wrapping
/// from `$FFFF` to `$8000`), so after `i` fetches the reads are the
/// sample's first `min(i, length)` addresses in order; no fetch past the
/// length reads anything; and from the last byte on the DMC IRQ is set
/// if it is enabled.
pub proof fn law_dmc_sample_reads_in_order(d: Dmc, bytes: Seq<u8>, i: nat)
    requires
        d.wf(),
        d.bytes_left() == d.sample().1,
        d.cursor() == d.sample().0,
        d.sample().1 <= 4081,
        !d.irq_state().0,
        bytes.len() >= i,
    ensures
        ({
            let n = if i <= d.sample().1 { i as int } else { d.sample().1 as int };
            &&& d.fetches_reads(bytes, i) == Seq::new(
                n as nat,
                |k: int| (sample_byte_addr(d.sample().0, k) as u16, bytes[k]),
            )
            &&& d.fetches(bytes, i).bytes_left() == d.sample().1 - n
            &&& d.fetches(bytes, i).sample() == d.sample()
            &&& d.fetches(bytes, i).irq_state().0 == d.irq_state().0
            &&& d.fetches(bytes, i).irq_state().1 == d.irq_state().1
            &&& n < d.sample().1 ==> d.fetches(bytes, i).cursor() == sample_byte_addr(d.sample().0, n)
            &&& d.fetches(bytes, i).irq_state().2 == (d.irq_state().2 || (d.sample().1 >= 1 && n == d.sample().1
                && d.irq_state().1))
        }),
    decreases i,
{
    reveal(Dmc::fetched_with);
    if i > 0 {
        let im = (i - 1) as nat;
        law_dmc_sample_reads_in_order(d, bytes, im);
        let p = d.fetches(bytes, im);
        let m = if im <= d.sample_len { im as int } else { d.sample_len as int };
        if m < d.sample_len {
            assert(p.remaining > 0);
            assert(Dmc::next_addr(sample_byte_addr(d.sample_addr, m) as u16) == sample_byte_addr(d.sample_addr, m + 1));
        }
        assert(d.fetches_reads(bytes, i) =~= Seq::new(
            (if i <= d.sample_len { i as int } else { d.sample_len as int }) as nat,
            |k: int| (sample_byte_addr(d.sample_addr, k) as u16, bytes[k]),
        ));
    } else {
        assert(d.fetches_reads(bytes, 0) =~= Seq::new(0, |k: int| (sample_byte_addr(d.sample_addr, k) as u16, bytes[k])));
    }
}

/// A square is muted exactly when its period is below 8 or its sweep
/// target passes `$7FF`, whatever the sweep's enable.
pub proof fn law_square_mute(s: Square)
    ensures
        s.is_muted() <==> (s.sweep_inputs().0 < 8 || s.sweep_target() > 0x7ff),
        !s.sweep_inputs().2 ==> s.sweep_target() == s.sweep_inputs().0 + (s.sweep_inputs().0 >> s.sweep_inputs().1),
{
}

/// A square with a period below 8 is muted and silent.
pub proof fn law_short_period_square_is_silent(s: Square, duty: [u8; 4])
    requires
        s.sweep_inputs().0 < 8,
    ensures
        s.is_muted(),
        s.code(duty) == 0,
{
}

/// The triangle's 32-step sequence is the 4-bit ramp 15..0 then 0..15:
/// every code fits four bits and the sequence is symmetric.
pub proof fn law_triangle_sequence(t: Triangle)
    requires
        t.wf(),
    ensures
        t.code() <= 15,
        t.sequence_step() < 16 ==> t.code() == 15 - t.sequence_step(),
        t.sequence_step() >= 16 ==> t.code() == t.sequence_step() - 16,
        t.code() == t.at_step((31 - t.sequence_step()) as u8).code(),
{
}

/// The DMC's level moves by two per bit and never leaves 0..=127.
pub proof fn law_dmc_level_stays_seven_bit(out: u8, silence: bool, bit: bool)
    requires
        out <= 127,
    ensures
        Dmc::level_after(out, silence, bit) <= 127,
        Dmc::level_after(out, silence, bit) - out <= 2,
        out - Dmc::level_after(out, silence, bit) <= 2,
        silence ==> Dmc::level_after(out, silence, bit) == out,
{
}

/// Every sample byte the DMC fetches comes from `$8000..=$FFFF`, in any
/// state the APU reaches.
pub proof fn law_dmc_fetches_from_the_upper_half(a: Apu)
    requires
        a.wf(),
    ensures
        a.dmc_last_fetch() matches Some(f) ==> f.0 >= 0x8000,
        a.dmc_level() <= 127,
{
}

/// The frame IRQ flag is never set while the `$4017` write's inhibit
/// stands, in any state the APU reaches.
pub proof fn law_inhibit_keeps_frame_irq_clear(a: Apu)
    requires
        a.wf(),
    ensures
        a.irq_inhibited() ==> !a.frame_irq_flag(),
{
}

/// The frame IRQ flag sticks: a half-step with no register write never
/// clears it; only a `$4015` read or an inhibiting `$4017` write does.
pub proof fn law_frame_irq_sticks(a: Apu, b1: u8, b2: u8)
    requires
        !a.has_pending_write(),
        a.frame_irq_flag(),
    ensures
        a.stepped(b1, b2).frame_irq_flag(),
{
    reveal(Apu::write_applied);
    reveal(Apu::rises_scheduled);
    reveal(Apu::frame_advanced);
    reveal(Apu::timers_ticked);
    reveal(Apu::units_stepped);
    let s1 = a.write_applied(b1).rises_scheduled();
    assert(s1.frame_irq);
    let s2 = s1.dues_counted();
    assert(s1.sq_len_due_counted().frame_irq);
    assert(s1.sq_len_due_counted().tri_due_counted().frame_irq);
    assert(s2.frame_irq);
}

proof fn lemma_scan_no_rise(table: Seq<(u32, u8)>, pos: u32, due: FrameDue)
    requires
        forall|i: int| 0 <= i < table.len() ==> #[trigger] table[i].0 != pos,
    ensures
        scan_rises(table, pos, due) == due,
    decreases table.len(),
{
    if table.len() > 0 {
        let t = table.drop_last();
        assert forall|i: int| 0 <= i < t.len() implies #[trigger] t[i].0 != pos by {
            assert(t[i] == table[i]);
        }
        lemma_scan_no_rise(t, pos, due);
        assert(table.last() == table[table.len() - 1]);
    }
}

/// The sequencer's last rise, a phase-3 one, raises the frame IRQ: from
/// the half-step that stands on it (no hold, no register write, the
/// position after it holding no rise), two half-steps later the flag is
/// set unless the inhibit stands.
pub proof fn law_phase_3_rise_raises_frame_irq(a: Apu, b1: u8, b2: u8, c1: u8, c2: u8)
    requires
        a.wf(),
        !a.has_pending_write(),
        a.frame_hold_left() == 0,
        a.frame_table().len() > 0,
        a.frame_table().last().1 == 3,
        a.frame_position() == a.frame_table().last().0,
        forall|i: int|
            0 <= i < a.frame_table().len() ==> #[trigger] a.frame_table()[i].0 != a.position_after(
                a.frame_position(),
            ),
    ensures
        !a.irq_inhibited() ==> a.stepped(b1, b2).stepped(c1, c2).frame_irq_flag(),
{
    reveal(Apu::write_applied);
    reveal(Apu::rises_scheduled);
    reveal(Apu::frame_advanced);
    reveal(Apu::timers_ticked);
    reveal(Apu::units_stepped);
    let t = a.frame_table();
    let s1 = a.write_applied(b1).rises_scheduled();
    assert(s1.frame_due == Some((3u8, fit::FRAME_EFFECT_LAG)));
    let s2 = s1.dues_counted();
    assert(s1.sq_len_due_counted().tri_due_counted().frame_due == s1.frame_due);
    assert(s2.frame_due == Some((3u8, 0u8)));
    let a1 = a.stepped(b1, b2);
    assert(a1.frame_due == Some((3u8, 0u8)));
    assert(a1.frame_table() == t);
    assert(a1.frame_pos == a.position_after(a.frame_pos));
    assert(a1.pending is None);
    let u1 = a1.write_applied(c1);
    assert(u1 == a1);
    lemma_scan_no_rise(t, a1.frame_pos, (a1.frame_due, a1.tri_due, a1.sq_len_due));
    let u2 = u1.rises_scheduled();
    assert(u2.frame_due == Some((3u8, 0u8)));
    assert(u2.sq_len_due_counted().tri_due_counted().frame_due == Some((3u8, 0u8)));
    assert(u2.irq_inhibit == a.irq_inhibit);
    let u3 = u2.dues_counted();
    assert(!a.irq_inhibit ==> u3.frame_irq);
}

proof fn lemma_scan_keeps_phase(table: Seq<(u32, u8)>, pos: u32, due: FrameDue)
    requires
        forall|i: int| 0 <= i < table.len() ==> #[trigger] table[i].1 != 3,
        due.0 matches Some(f) ==> f.0 != 3,
    ensures
        scan_rises(table, pos, due).0 matches Some(f) ==> f.0 != 3,
    decreases table.len(),
{
    if table.len() > 0 {
        let t = table.drop_last();
        assert forall|i: int| 0 <= i < t.len() implies #[trigger] t[i].1 != 3 by {
            assert(t[i] == table[i]);
        }
        lemma_scan_keeps_phase(t, pos, due);
        assert(table.last() == table[table.len() - 1]);
    }
}

/// In 5-step mode with no phase-3 rise in the 5-step table, the frame
/// IRQ is never raised: a half-step that starts with the flag clear, no
/// phase-3 effect scheduled and no write leaving 5-step mode ends the
/// same way, so the flag stays clear for as long as the mode lasts.
pub proof fn law_five_step_mode_raises_no_frame_irq(a: Apu, b1: u8, b2: u8)
    requires
        a.five_step_mode(),
        !a.frame_irq_flag(),
        a.no_phase_3_due(),
        a.pending_keeps_five_step(),
        forall|i: int| 0 <= i < a.table_set().frame_5@.len() ==> #[trigger] a.table_set().frame_5@[i].1 != 3,
    ensures
        a.stepped(b1, b2).five_step_mode(),
        !a.stepped(b1, b2).frame_irq_flag(),
        a.stepped(b1, b2).no_phase_3_due(),
        a.stepped(b1, b2).table_set() == a.table_set(),
        !a.stepped(b1, b2).has_pending_write(),
{
    lemma_five_step_write(a, b1);
    let s0 = a.write_applied(b1);
    assert forall|i: int| 0 <= i < s0.frame_table().len() implies #[trigger] s0.frame_table()[i].1 != 3 by {
        assert(s0.frame_table()[i] == a.table_set().frame_5@[i]);
    }
    lemma_five_step_frame(s0);
    let s3 = s0.rises_scheduled().dues_counted().frame_advanced().timers_ticked();
    reveal(Apu::units_stepped);
}

proof fn lemma_five_step_write(a: Apu, b: u8)
    requires
        a.five_step,
        !a.frame_irq,
        a.frame_due matches Some(f) ==> f.0 != 3,
        a.pending matches Some(p) ==> (p.0 != 0x17 || p.1 & 0x80 != 0),
    ensures
        a.write_applied(b).five_step,
        !a.write_applied(b).frame_irq,
        a.write_applied(b).frame_due matches Some(f) ==> f.0 != 3,
        a.write_applied(b).tables == a.tables,
        a.write_applied(b).pending is None,
{
    reveal(Apu::write_applied);
    reveal(Apu::applied_with);
}

proof fn lemma_five_step_frame(s0: Apu)
    requires
        s0.five_step,
        !s0.frame_irq,
        s0.frame_due matches Some(f) ==> f.0 != 3,
        s0.pending is None,
        forall|i: int| 0 <= i < s0.frame_table().len() ==> #[trigger] s0.frame_table()[i].1 != 3,
    ensures
        ({
            let s3 = s0.rises_scheduled().dues_counted().frame_advanced().timers_ticked();
            &&& s3.five_step
            &&& !s3.frame_irq
            &&& s3.frame_due matches Some(f) ==> f.0 != 3
            &&& s3.tables == s0.tables
            &&& s3.pending is None
        }),
{
    reveal(Apu::rises_scheduled);
    reveal(Apu::frame_advanced);
    reveal(Apu::timers_ticked);
    lemma_scan_keeps_phase(s0.frame_table(), s0.frame_pos, (s0.frame_due, s0.tri_due, s0.sq_len_due));
    let s1 = s0.rises_scheduled();
    assert(s1.frame_due matches Some(f) ==> f.0 != 3);
    let s2 = s1.dues_counted();
    assert(s1.sq_len_due_counted().tri_due_counted().frame_due == s1.frame_due);
    assert(!s1.sq_len_due_counted().tri_due_counted().frame_irq);
    assert(!s2.frame_irq && s2.five_step);
    assert(s2.frame_due matches Some(f) ==> f.0 != 3);
}

/// A frame effect's countdown one half-step on: landed at zero,
/// otherwise one nearer.
pub open spec fn due_after(d: Option<(u8, u8)>) -> Option<(u8, u8)> {
    match d {
        Some(f) => if f.1 == 0 {
            None
        } else {
            Some((f.0, (f.1 - 1) as u8))
        },
        None => None,
    }
}

/// `k` half-steps, step `j` reading the bytes `bs[j]`.
pub open spec fn apu_run(a: Apu, bs: Seq<(u8, u8)>, k: nat) -> Apu
    decreases k,
{
    if k == 0 {
        a
    } else {
        apu_run(a, bs, (k - 1) as nat).stepped(bs[k - 1].0, bs[k - 1].1)
    }
}

proof fn lemma_frame_fields_dues(x: Apu)
    ensures
        x.dues_counted().frame_due == due_after(x.frame_due),
        x.dues_counted().frame_irq == (x.frame_irq || (x.frame_due matches Some(f) && f.1 == 0 && f.0 == 3
            && !x.irq_inhibit)),
        x.dues_counted().five_step == x.five_step,
        x.dues_counted().irq_inhibit == x.irq_inhibit,
        x.dues_counted().tables == x.tables,
        x.dues_counted().pending == x.pending,
        x.dues_counted().frame_pos == x.frame_pos,
        x.dues_counted().frame_hold == x.frame_hold,
        x.dues_counted().h == x.h,
{
    let y = x.sq_len_due_counted().tri_due_counted();
    assert(y.frame_due == x.frame_due && y.frame_irq == x.frame_irq && y.irq_inhibit == x.irq_inhibit);
}

/// One half-step with no register write, as the sequencer sees it: the
/// position moves (or the hold counts down), the effects the scan
/// schedules count down or land, and a landing phase 3 raises the IRQ
/// unless inhibited; mode, inhibit and tables stay.
#[verifier::spinoff_prover]
#[verifier::rlimit(60)]
proof fn lemma_frame_step(x: Apu, b1: u8, b2: u8)
    requires
        x.pending is None,
        x.h < u64::MAX,
        x.frame_pos < 0xffff_ffff,
    ensures
        ({
            let y = x.stepped(b1, b2);
            let d = scan_rises(x.frame_table(), x.frame_pos, (x.frame_due, x.tri_due, x.sq_len_due)).0;
            let first = x.frame_table()[0].0;
            &&& y.five_step == x.five_step
            &&& y.irq_inhibit == x.irq_inhibit
            &&& y.tables == x.tables
            &&& y.pending is None
            &&& y.h == x.h + 1
            &&& y.frame_due == due_after(d)
            &&& y.frame_irq == (x.frame_irq || (d matches Some(f) && f.1 == 0 && f.0 == 3 && !x.irq_inhibit))
            &&& y.frame_hold == (if x.frame_hold > 0 { (x.frame_hold - 1) as u32 } else { 0 })
            &&& y.frame_pos == (if x.frame_hold > 0 {
                x.frame_pos as int
            } else if x.frame_pos + 1 >= first + x.frame_period() {
                first as int
            } else {
                x.frame_pos + 1
            })
        }),
{
    reveal(Apu::write_applied);
    assert(x.write_applied(b1) == x);
    reveal(Apu::rises_scheduled);
    let s1 = x.rises_scheduled();
    let d = scan_rises(x.frame_table(), x.frame_pos, (x.frame_due, x.tri_due, x.sq_len_due)).0;
    assert(s1.frame_due == d);
    assert(s1.frame_irq == x.frame_irq && s1.five_step == x.five_step && s1.irq_inhibit == x.irq_inhibit
        && s1.tables == x.tables && s1.pending == x.pending && s1.frame_pos == x.frame_pos
        && s1.frame_hold == x.frame_hold && s1.h == x.h);
    lemma_frame_fields_dues(s1);
    let s2 = s1.dues_counted();
    assert(s2.frame_table() == x.frame_table() && s2.frame_period() == x.frame_period());
    reveal(Apu::frame_advanced);
    let s3 = s2.frame_advanced();
    assert(s3.frame_due == s2.frame_due && s3.frame_irq == s2.frame_irq && s3.h == s2.h && s3.tables == s2.tables
        && s3.pending == s2.pending && s3.five_step == s2.five_step && s3.irq_inhibit == s2.irq_inhibit);
    reveal(Apu::timers_ticked);
    let s4 = s3.timers_ticked();
    assert(s4.frame_due == s3.frame_due && s4.frame_irq == s3.frame_irq && s4.h == s3.h && s4.frame_pos == s3.frame_pos
        && s4.frame_hold == s3.frame_hold && s4.tables == s3.tables && s4.pending == s3.pending
        && s4.five_step == s3.five_step && s4.irq_inhibit == s3.irq_inhibit);
    reveal(Apu::units_stepped);
    let y = s4.units_stepped(b2);
    assert(y.frame_due == s4.frame_due && y.frame_irq == s4.frame_irq && y.frame_pos == s4.frame_pos
        && y.frame_hold == s4.frame_hold && y.tables == s4.tables && y.pending == s4.pending
        && y.five_step == s4.five_step && y.irq_inhibit == s4.irq_inhibit && y.h == s4.h + 1);
    assert(x.stepped(b1, b2) == y);
}

proof fn lemma_scan_phase_at(table: Seq<(u32, u8)>, pos: u32, due: FrameDue)
    requires
        forall|i: int| 0 <= i < table.len() && #[trigger] table[i].0 == pos ==> table[i].1 != 3,
        due.0 matches Some(f) ==> f.0 != 3,
    ensures
        scan_rises(table, pos, due).0 matches Some(f) ==> f.0 != 3,
    decreases table.len(),
{
    if table.len() > 0 {
        let t = table.drop_last();
        assert forall|i: int| 0 <= i < t.len() && #[trigger] t[i].0 == pos implies t[i].1 != 3 by {
            assert(t[i] == table[i]);
        }
        lemma_scan_phase_at(t, pos, due);
        assert(table.last() == table[table.len() - 1]);
    }
}

proof fn lemma_scan_hits_phase_3(table: Seq<(u32, u8)>, pos: u32, due: FrameDue, i0: int)
    requires
        0 <= i0 < table.len(),
        table[i0].0 == pos,
        forall|i: int| 0 <= i < table.len() && #[trigger] table[i].0 == pos ==> table[i].1 == 3,
    ensures
        scan_rises(table, pos, due).0 == Some((3u8, fit::FRAME_EFFECT_LAG)),
    decreases table.len(),
{
    let t = table.drop_last();
    assert(table.last() == table[table.len() - 1]);
    if i0 < table.len() - 1 {
        assert(t[i0] == table[i0]);
        assert forall|i: int| 0 <= i < t.len() && #[trigger] t[i].0 == pos implies t[i].1 == 3 by {
            assert(t[i] == table[i]);
        }
        lemma_scan_hits_phase_3(t, pos, due, i0);
    }
}

/// The run after a 4-step `$4017` write with neither inhibit nor mode 1,
/// `n` half-steps in (the write's own included), while the scan has not
/// yet reached `a3`: no IRQ, no phase-3 effect due, the position and the
/// hold as the restart left them.
#[verifier::spinoff_prover]
#[verifier::rlimit(60)]
proof fn lemma_restart_run(a: Apu, v: u8, bs: Seq<(u8, u8)>, a3: u32, n: nat)
    requires
        a.wf(),
        a.pending == Some((0x17u8, v)),
        v & 0xc0 == 0,
        !a.frame_irq,
        a.frame_due matches Some(f) ==> f.0 != 3,
        1 <= a3,
        a3 + 1 < a.tables.frame_4@[0].0 + a.tables.frame_4_period,
        forall|i: int| 0 <= i < a.tables.frame_4@.len() && #[trigger] a.tables.frame_4@[i].1 == 3 ==> a.tables.frame_4@[i].0 == a3,
        1 <= n <= a.write_hold() + a3,
        bs.len() >= n,
        a.h + n < u64::MAX,
    ensures
        ({
            let y = apu_run(a, bs, n);
            let hold = a.write_hold();
            &&& y.pending is None
            &&& !y.five_step
            &&& !y.irq_inhibit
            &&& !y.frame_irq
            &&& y.tables == a.tables
            &&& y.h == a.h + n
            &&& y.frame_due matches Some(f) ==> f.0 != 3
            &&& y.frame_hold == (if n <= hold { hold - n } else { 0 })
            &&& y.frame_pos == (if n <= hold { 0 } else { n - hold })
        }),
    decreases n,
{
    let hold = a.write_hold();
    let t = a.tables.frame_4@;
    if n == 1 {
        reveal(Apu::write_applied);
        reveal(Apu::applied_with);
        assert(v & 0x80 == 0 && v & 0x40 == 0) by (bit_vector)
            requires
                v & 0xc0 == 0,
        ;
        let x = a.write_applied(bs[0].0);
        assert(x.pending is None && !x.five_step && !x.irq_inhibit && !x.frame_irq && x.frame_pos == 0
            && x.frame_hold == hold && x.tables == a.tables && x.h == a.h && x.frame_due == a.frame_due);
        assert(a.stepped(bs[0].0, bs[0].1) == x.stepped(bs[0].0, bs[0].1));
        assert(apu_run(a, bs, 1) == a.stepped(bs[0].0, bs[0].1));
        assert(x.frame_table() == t);
        lemma_scan_phase_at(t, 0, (x.frame_due, x.tri_due, x.sq_len_due));
        lemma_frame_step(x, bs[0].0, bs[0].1);
    } else {
        let m = (n - 1) as nat;
        lemma_restart_run(a, v, bs, a3, m);
        let x = apu_run(a, bs, m);
        assert(x.frame_table() == t);
        assert(x.frame_pos != a3);
        lemma_scan_phase_at(t, x.frame_pos, (x.frame_due, x.tri_due, x.sq_len_due));
        lemma_frame_step(x, bs[m as int].0, bs[m as int].1);
    }
}

/// A `$4017` write of the 4-step mode without the inhibit restarts the
/// sequencer, holding it first for `write_hold` half-steps on the other
/// APU parity (the jitter); the frame IRQ, clear before, stays clear up
/// to the half-step that reaches the phase-3 rise `a3` (the table's only
/// one, with no rise right after it), and is set one half-step later:
/// after `hold + a3 + 1` half-steps (the write's own included) it is
/// still clear, after `hold + a3 + 2` it is set.
#[verifier::spinoff_prover]
#[verifier::rlimit(60)]
pub proof fn law_4017_write_raises_frame_irq_on_time(a: Apu, v: u8, bs: Seq<(u8, u8)>, a3: u32)
    requires
        a.wf(),
        a.pending_write() == Some((0x17u8, v)),
        v & 0xc0 == 0,
        !a.frame_irq_flag(),
        a.no_phase_3_due(),
        1 <= a3,
        a3 + 1 < a.table_set().frame_4@[0].0 + a.table_set().frame_4_period,
        exists|i: int| 0 <= i < a.table_set().frame_4@.len() && #[trigger] a.table_set().frame_4@[i] == (a3, 3u8),
        forall|i: int|
            0 <= i < a.table_set().frame_4@.len() && #[trigger] a.table_set().frame_4@[i].1 == 3 ==> a.table_set().frame_4@[i].0
                == a3,
        forall|i: int|
            0 <= i < a.table_set().frame_4@.len() && #[trigger] a.table_set().frame_4@[i].0 == a3 ==> a.table_set().frame_4@[i].1
                == 3,
        forall|i: int| 0 <= i < a.table_set().frame_4@.len() ==> #[trigger] a.table_set().frame_4@[i].0 != a3 + 1,
        bs.len() >= a.write_hold() + a3 + 2,
        a.half_cycles() + a.write_hold() + a3 + 3 < u64::MAX,
    ensures
        forall|n: nat| 1 <= n <= a.write_hold() + a3 + 1 ==> !(#[trigger] apu_run(a, bs, n)).frame_irq_flag(),
        apu_run(a, bs, (a.write_hold() + a3 + 2) as nat).frame_irq_flag(),
{
    let hold = a.write_hold();
    let t = a.tables.frame_4@;
    let k = (hold + a3) as nat;
    lemma_restart_run(a, v, bs, a3, k);
    let x = apu_run(a, bs, k);
    assert(x.frame_pos == a3);
    assert(x.frame_table() == t);
    let i0 = choose|i: int| 0 <= i < t.len() && #[trigger] t[i] == (a3, 3u8);
    lemma_scan_hits_phase_3(t, a3, (x.frame_due, x.tri_due, x.sq_len_due), i0);
    lemma_frame_step(x, bs[k as int].0, bs[k as int].1);
    let y = apu_run(a, bs, k + 1);
    assert(y == x.stepped(bs[k as int].0, bs[k as int].1));
    assert(y.frame_due == Some((3u8, 0u8)));
    assert(!y.frame_irq);
    assert(y.frame_pos == a3 + 1);
    assert(y.frame_table() == t);
    lemma_scan_no_rise(t, y.frame_pos, (y.frame_due, y.tri_due, y.sq_len_due));
    lemma_frame_step(y, bs[(k + 1) as int].0, bs[(k + 1) as int].1);
    assert(apu_run(a, bs, k + 2) == y.stepped(bs[(k + 1) as int].0, bs[(k + 1) as int].1));
    assert forall|n: nat| 1 <= n <= hold + a3 + 1 implies !(#[trigger] apu_run(a, bs, n)).frame_irq_flag() by {
        if n <= k {
            lemma_restart_run(a, v, bs, a3, n);
        }
    }
}

/// A plain countdown one half-step on: gone at zero, else one nearer.
pub open spec fn count_after(d: Option<u8>) -> Option<u8> {
    match d {
        Some(x) => if x == 0 {
            None
        } else {
            Some((x - 1) as u8)
        },
        None => None,
    }
}

proof fn lemma_pair_parts(x: Square, y: Square)
    ensures
        pair(x, y)[0] == x,
        pair(x, y)[1] == y,
{
    reveal(pair);
}

/// The length counters through the due effects: the squares' halved
/// where their countdown lands, the triangle's and the noise's where a
/// half-frame phase lands.
proof fn lemma_len_dues(x: Apu)
    ensures
        x.dues_counted().sq_len_due == count_after(x.sq_len_due),
        x.dues_counted().sq[0].len == (if x.sq_len_due == Some(0u8) { x.sq[0].len.halved() } else { x.sq[0].len }),
        x.dues_counted().sq[1].len == (if x.sq_len_due == Some(0u8) { x.sq[1].len.halved() } else { x.sq[1].len }),
        x.dues_counted().tri.len == (if x.frame_due matches Some(f) && f.1 == 0 && f.0 != 0 && f.0 != 2 {
            x.tri.len.halved()
        } else {
            x.tri.len
        }),
        x.dues_counted().noise.len == (if x.frame_due matches Some(f) && f.1 == 0 && f.0 != 0 && f.0 != 2 {
            x.noise.len.halved()
        } else {
            x.noise.len
        }),
{
    let y1 = x.sq_len_due_counted();
    lemma_pair_parts(Square { len: x.sq[0].len.halved(), ..x.sq[0] }, Square { len: x.sq[1].len.halved(), ..x.sq[1] });
    assert(y1.sq[0].len == (if x.sq_len_due == Some(0u8) { x.sq[0].len.halved() } else { x.sq[0].len }));
    assert(y1.sq[1].len == (if x.sq_len_due == Some(0u8) { x.sq[1].len.halved() } else { x.sq[1].len }));
    let y2 = y1.tri_due_counted();
    assert(y2.sq == y1.sq && y2.tri.len == x.tri.len && y2.noise.len == x.noise.len && y2.frame_due == x.frame_due);
    let q = y2.without_frame_due().quartered();
    lemma_pair_parts(Square { env: y2.sq[0].env.quartered(), ..y2.sq[0] }, Square { env: y2.sq[1].env.quartered(), ..y2.sq[1] });
    assert(q.sq[0].len == y2.sq[0].len && q.sq[1].len == y2.sq[1].len);
    lemma_pair_parts(q.sq[0].swept(), q.sq[1].swept());
    assert(q.halved().sq[0].len == y2.sq[0].len && q.halved().sq[1].len == y2.sq[1].len);
}

/// The length counters through the rest of a half-step: the sequencer's
/// move, the timers and the units leave them alone.
proof fn lemma_len_rest(x: Apu, b: u8)
    ensures
        ({
            let y = x.frame_advanced().timers_ticked().units_stepped(b);
            &&& y.sq[0].len == x.sq[0].len
            &&& y.sq[1].len == x.sq[1].len
            &&& y.tri.len == x.tri.len
            &&& y.noise.len == x.noise.len
            &&& y.sq_len_due == x.sq_len_due
            &&& y.frame_due == x.frame_due
        }),
{
    reveal(Apu::frame_advanced);
    reveal(Apu::timers_ticked);
    reveal(Apu::units_stepped);
    let y0 = x.frame_advanced();
    lemma_pair_parts(y0.sq[0].ticked(), y0.sq[1].ticked());
}

#[verifier::spinoff_prover]
#[verifier::rlimit(60)]
proof fn lemma_mode1_run(a: Apu, v: u8, bs: Seq<(u8, u8)>, n: nat)
    requires
        a.wf(),
        a.pending == Some((0x17u8, v)),
        v & 0x80 != 0,
        forall|i: int| 0 <= i < a.tables.frame_5@.len() ==> #[trigger] a.tables.frame_5@[i].0 > a.mode1_lead() + 5,
        1 <= n <= a.mode1_lead() + 4,
        bs.len() >= n,
        a.h + n + 1 < u64::MAX,
    ensures
        ({
            let y = apu_run(a, bs, n);
            let d = a.mode1_lead();
            &&& y.pending is None
            &&& y.five_step
            &&& y.tables == a.tables
            &&& y.h == a.h + n
            &&& y.frame_pos <= n
            &&& y.frame_due == (if n <= d + 1 { Some((1u8, (d + 1 - n) as u8)) } else { None::<(u8, u8)> })
            &&& y.sq_len_due == (if n <= d + 3 { Some((d + 3 - n) as u8) } else { None::<u8> })
            &&& y.sq[0].len == (if n >= d + 4 { a.sq[0].len.halved() } else { a.sq[0].len })
            &&& y.sq[1].len == (if n >= d + 4 { a.sq[1].len.halved() } else { a.sq[1].len })
            &&& y.tri.len == (if n >= d + 2 { a.tri.len.halved() } else { a.tri.len })
            &&& y.noise.len == (if n >= d + 2 { a.noise.len.halved() } else { a.noise.len })
        }),
    decreases n,
{
    let d = a.mode1_lead();
    let t = a.tables.frame_5@;
    let x = if n == 1 {
        reveal(Apu::write_applied);
        reveal(Apu::applied_with);
        let w = a.write_applied(bs[0].0);
        assert(w.pending is None && w.five_step && w.frame_pos == 0 && w.tables == a.tables && w.h == a.h);
        assert(w.frame_due == Some((1u8, (d + 1) as u8)));
        assert(w.sq_len_due == Some((d + 3) as u8));
        assert(w.sq == a.sq && w.tri.len == a.tri.len && w.noise.len == a.noise.len);
        assert(a.stepped(bs[0].0, bs[0].1) == w.stepped(bs[0].0, bs[0].1));
        assert(apu_run(a, bs, 1) == w.stepped(bs[0].0, bs[0].1));
        w
    } else {
        let m = (n - 1) as nat;
        lemma_mode1_run(a, v, bs, m);
        apu_run(a, bs, m)
    };
    let j = (n - 1) as int;
    assert(apu_run(a, bs, n) == x.stepped(bs[j].0, bs[j].1));
    assert(x.frame_table() == t);
    lemma_scan_no_rise(t, x.frame_pos, (x.frame_due, x.tri_due, x.sq_len_due));
    lemma_frame_step(x, bs[j].0, bs[j].1);
    reveal(Apu::write_applied);
    reveal(Apu::rises_scheduled);
    let s1 = x.rises_scheduled();
    assert(s1.sq == x.sq && s1.tri == x.tri && s1.noise == x.noise && s1.sq_len_due == x.sq_len_due
        && s1.frame_due == x.frame_due);
    lemma_len_dues(s1);
    lemma_len_rest(s1.dues_counted(), bs[j].1);
    assert(x.stepped(bs[j].0, bs[j].1) == s1.dues_counted().frame_advanced().timers_ticked().units_stepped(bs[j].1));
}

/// A `$4017` write of the 5-step mode clocks the four length counters
/// once at once, `mode1_lead` (the mode-1 clock less the squares' length
/// lag, plus the parity's hold) half-steps on: the triangle's and the
/// noise's in half-step `lead + 2` (the write's own counted first), the
/// squares' in half-step `lead + 4`; before those each stands, after
/// them each has taken exactly one half-frame clock. No sequencer rise
/// may fall in the window.
pub proof fn law_mode_1_write_clocks_lengths(a: Apu, v: u8, bs: Seq<(u8, u8)>, n: nat)
    requires
        a.wf(),
        a.pending_write() == Some((0x17u8, v)),
        v & 0x80 != 0,
        forall|i: int|
            0 <= i < a.table_set().frame_5@.len() ==> #[trigger] a.table_set().frame_5@[i].0 > a.mode1_lead() + 5,
        1 <= n <= a.mode1_lead() + 4,
        bs.len() >= n,
        a.half_cycles() + n + 1 < u64::MAX,
    ensures
        ({
            let l = apu_run(a, bs, n).lengths();
            let l0 = a.lengths();
            let d = a.mode1_lead();
            &&& l[0] == (if n >= d + 4 { l0[0].halved() } else { l0[0] })
            &&& l[1] == (if n >= d + 4 { l0[1].halved() } else { l0[1] })
            &&& l[2] == (if n >= d + 2 { l0[2].halved() } else { l0[2] })
            &&& l[3] == (if n >= d + 2 { l0[3].halved() } else { l0[3] })
        }),
{
    assert forall|i: int| 0 <= i < a.tables.frame_5@.len() implies #[trigger] a.tables.frame_5@[i].0 > a.mode1_lead() + 5 by {
        assert(a.table_set().frame_5@[i] == a.tables.frame_5@[i]);
    }
    lemma_mode1_run(a, v, bs, n);
}

/// A register write goes to the channel its address names and no other:
/// `$4000-$4003` square 0, `$4004-$4007` square 1, `$4008-$400B` the
/// triangle, `$400C-$400F` the noise, `$4010-$4013` the DMC, each
/// written with the register's low two bits; `$4014`, `$4016` and
/// `$4018` on change nothing; and none of these moves the sequencer,
/// the IRQ flags or the clock.
pub proof fn law_register_routing(a: Apu, reg: u8, v: u8, b: u8)
    ensures
        ({
            let u = a.units();
            let w = a.applied_with(reg, v, b);
            let len = a.table_set().length;
            &&& reg <= 0x03 ==> w.units() == (u.0.written(reg, v, len), u.1, u.2, u.3, u.4)
            &&& 0x04 <= reg <= 0x07 ==> w.units() == (u.0, u.1.written(reg, v, len), u.2, u.3, u.4)
            &&& 0x08 <= reg <= 0x0b ==> w.units() == (u.0, u.1, u.2.written(reg, v, len), u.3, u.4)
            &&& 0x0c <= reg <= 0x0f ==> w.units() == (u.0, u.1, u.2, u.3.written(reg, v, len), u.4)
            &&& 0x10 <= reg <= 0x13 ==> w.units() == (u.0, u.1, u.2, u.3, u.4.written(reg, v))
            &&& (reg == 0x14 || reg == 0x16 || reg >= 0x18) ==> w == a
            &&& reg != 0x15 && reg != 0x17 ==> {
                &&& w.frame_position() == a.frame_position()
                &&& w.frame_irq_flag() == a.frame_irq_flag()
                &&& !(0x10 <= reg <= 0x13) ==> w.dmc_irq_flag() == a.dmc_irq_flag()
                &&& w.half_cycles() == a.half_cycles()
            }
        }),
{
    reveal(Apu::applied_with);
    reveal(pair);
}

/// The timers tick each on its own grain: the squares' on half-steps
/// with `h + 3` a multiple of four, the triangle's on even ones, the
/// noise's and the DMC's on those with `h + 1` a multiple of four; on
/// the others each stands.
pub proof fn law_timer_grains(a: Apu)
    ensures
        ({
            let u = a.units();
            let t = a.timers_ticked().units();
            let h = a.half_cycles();
            &&& t.0 == (if (h + 3) % 4 == 0 { u.0.ticked() } else { u.0 })
            &&& t.1 == (if (h + 3) % 4 == 0 { u.1.ticked() } else { u.1 })
            &&& t.2 == (if h % 2 == 0 { u.2.ticked() } else { u.2 })
            &&& t.3 == (if (h + 1) % 4 == 0 { u.3.ticked() } else { u.3 })
            &&& t.4 == (if (h + 1) % 4 == 0 { u.4.ticked() } else { u.4 })
        }),
{
    reveal(Apu::timers_ticked);
    reveal(pair);
}

/// The sequencer's clock, one half-step with no register write: while a
/// hold lasts it counts the hold down and the position stands; otherwise
/// the position moves one on, wrapping at the end of the period to the
/// table's first rise.
pub proof fn law_sequencer_moves_one_per_half_step(a: Apu, b1: u8, b2: u8)
    requires
        a.wf(),
        !a.has_pending_write(),
        a.half_cycles() < u64::MAX,
    ensures
        a.frame_hold_left() > 0 ==> a.stepped(b1, b2).frame_position() == a.frame_position()
            && a.stepped(b1, b2).frame_hold_left() == a.frame_hold_left() - 1,
        a.frame_hold_left() == 0 ==> a.stepped(b1, b2).frame_hold_left() == 0 && a.stepped(b1, b2).frame_position()
            == a.position_after(a.frame_position()),
        a.stepped(b1, b2).half_cycles() == a.half_cycles() + 1,
{
    assert(a.frame_pos < 0xffff_ffff);
    lemma_frame_step(a, b1, b2);
}

/// Reading `$4015` clears the frame IRQ: a second read reports bit 6
/// clear whatever the first read saw.
pub proof fn law_status_read_clears_frame_irq(a: Apu)
    requires
        a.wf(),
    ensures
        (a.status_read().status() >> 6u8) & 1 == 0,
        a.status_read().wf(),
{
    let b0: u8 = if a.sq[0].len.is_playing() && a.sq[0].len.enabled { 1 } else { 0 };
    let b1: u8 = if a.sq[1].len.is_playing() && a.sq[1].len.enabled { 2 } else { 0 };
    let b2: u8 = if a.tri.len.is_playing() && a.tri.len.enabled { 4 } else { 0 };
    let b3: u8 = if a.noise.len.is_playing() && a.noise.len.enabled { 8 } else { 0 };
    let b4: u8 = if a.dmc.remaining > 0 { 0x10 } else { 0 };
    let b7: u8 = if a.dmc.irq { 0x80 } else { 0 };
    lemma_status_bits(b0, b1, b2, b3, b4, 0, b7);
    let v = b0 | b1 | b2 | b3 | b4 | 0u8 | b7;
    assert(a.status_read().status() == v);
    assert((v >> 6u8) & 1 == 1 || (v >> 6u8) & 1 == 0) by (bit_vector);
}

/// A `$4015` write disables every length counter whose bit is clear:
/// each then reports stopped.
pub proof fn law_enable_write_stops_cleared_lengths(a: Apu, v: u8, b: u8)
    requires
        a.wf(),
    ensures
        forall|k: int|
            0 <= k < 4 && (v >> (k as u8)) & 1 == 0 ==> !(#[trigger] a.applied_with(0x15, v, b).length_counting(k)),
{
    reveal(Apu::applied_with);
    let r = a.applied_with(0x15, v, b);
    reveal(pair);
    assert((v >> 0u8) & 1 == 0 <==> v & 1 == 0) by (bit_vector);
    assert((v >> 1u8) & 1 == 0 <==> v & 2 == 0) by (bit_vector);
    assert((v >> 2u8) & 1 == 0 <==> v & 4 == 0) by (bit_vector);
    assert((v >> 3u8) & 1 == 0 <==> v & 8 == 0) by (bit_vector);
    assert forall|k: int|
        0 <= k < 4 && (v >> (k as u8)) & 1 == 0 implies !(#[trigger] r.length_counting(k)) by {
        if k == 0 {
            assert((v >> (0int as u8)) == (v >> 0u8));
        } else if k == 1 {
            assert((v >> (1int as u8)) == (v >> 1u8));
        } else if k == 2 {
            assert((v >> (2int as u8)) == (v >> 2u8));
        } else {
            assert((v >> (3int as u8)) == (v >> 3u8));
        }
    }
}

/// The five codes fit their pins: four bits for the squares, the
/// triangle and the noise, seven for the DMC.
pub proof fn law_codes_fit_their_pins(a: Apu)
    requires
        a.wf(),
    ensures
        forall|k: int| 0 <= k < 4 ==> #[trigger] a.output_codes()[k] <= 15,
        a.output_codes()[4] <= 127,
{
    let i = ((a.h + 4 - 1 - fit::SQ_OUT_LAG) % 4) as int;
    assert(a.sq_lag[i][0] <= 15);
    assert(a.sq_lag[i][1] <= 15);
    assert(a.sq_lag[i][2] <= 15);
}


/// What a half-step does to the lag FIFO and the clock: it records the
/// codes it leaves at slot `h % 4`, touches no other slot, and counts.
#[verifier::spinoff_prover]
#[verifier::rlimit(60)]
proof fn lemma_stepped_lag(x: Apu, b1: u8, b2: u8)
    requires
        x.h < u64::MAX,
    ensures
        x.stepped(b1, b2).h == x.h + 1,
        x.stepped(b1, b2).tables == x.tables,
        x.stepped(b1, b2).sq_lag[(x.h % 4) as int] == [
            x.stepped(b1, b2).sq[0].code(x.tables.duty),
            x.stepped(b1, b2).sq[1].code(x.tables.duty),
            x.stepped(b1, b2).noise.code(),
        ],
        forall|j: int| 0 <= j < 4 && j != x.h % 4 ==> #[trigger] x.stepped(b1, b2).sq_lag[j] == x.sq_lag[j],
{
    lemma_keeps_lag_applied(x, b1);
    let t1 = x.write_applied(b1);
    lemma_keeps_lag_frame(t1);
    let t = t1.rises_scheduled().dues_counted().frame_advanced().timers_ticked();
    reveal(Apu::units_stepped);
}

proof fn lemma_keeps_lag_applied(x: Apu, b: u8)
    ensures
        x.write_applied(b).h == x.h,
        x.write_applied(b).sq_lag == x.sq_lag,
        x.write_applied(b).tables == x.tables,
{
    reveal(Apu::write_applied);
    reveal(Apu::applied_with);
}

proof fn lemma_keeps_lag_frame(x: Apu)
    ensures
        x.rises_scheduled().dues_counted().frame_advanced().timers_ticked().h == x.h,
        x.rises_scheduled().dues_counted().frame_advanced().timers_ticked().sq_lag == x.sq_lag,
        x.rises_scheduled().dues_counted().frame_advanced().timers_ticked().tables == x.tables,
{
    reveal(Apu::rises_scheduled);
    reveal(Apu::frame_advanced);
    reveal(Apu::timers_ticked);
    let y = x.rises_scheduled();
    assert(y.h == x.h && y.sq_lag == x.sq_lag && y.tables == x.tables);
    let z = y.dues_counted();
    assert(y.sq_len_due_counted().tri_due_counted().sq_lag == x.sq_lag);
    assert(z.h == x.h && z.sq_lag == x.sq_lag && z.tables == x.tables);
}

/// The squares' and the noise's codes lag their state by two
/// half-steps; the triangle's and the DMC's do not: two half-steps
/// after any half-step (register writes presented between them or
/// not), the codes are the squares' and the noise's as that half-step
/// left them, beside the triangle's and the DMC's as they now stand.
#[verifier::spinoff_prover]
#[verifier::rlimit(60)]
pub proof fn law_codes_lag_two_half_steps(
    a: Apu,
    p1: u8,
    p2: u8,
    w1: Option<(u8, u8)>,
    q1: u8,
    q2: u8,
    w2: Option<(u8, u8)>,
    r1: u8,
    r2: u8,
)
    requires
        a.half_cycles() + 3 < u64::MAX,
    ensures
        ({
            let b = a.stepped(p1, p2);
            let c = b.maybe_presented(w1).stepped(q1, q2).maybe_presented(w2).stepped(r1, r2);
            c.output_codes() == seq![
                b.square_code(0),
                b.square_code(1),
                c.triangle_code(),
                b.noise_code(),
                c.dmc_level(),
            ]
        }),
{
    let b = a.stepped(p1, p2);
    lemma_stepped_lag(a, p1, p2);
    let b1 = b.maybe_presented(w1);
    assert(b1.h == b.h && b1.sq_lag == b.sq_lag && b1.tables == b.tables);
    lemma_stepped_lag(b1, q1, q2);
    let c0 = b1.stepped(q1, q2);
    let c1 = c0.maybe_presented(w2);
    assert(c1.h == c0.h && c1.sq_lag == c0.sq_lag && c1.tables == c0.tables);
    lemma_stepped_lag(c1, r1, r2);
    let c = c1.stepped(r1, r2);
    let i = (a.h % 4) as int;
    assert(((c.h + 4 - 1 - fit::SQ_OUT_LAG) % 4) as int == i);
    assert(i != b1.h % 4 && i != c1.h % 4);
    assert(c.sq_lag[i] == b.sq_lag[i]);
    assert(c.output_codes() =~= seq![
        b.square_code(0),
        b.square_code(1),
        c.triangle_code(),
        b.noise_code(),
        c.dmc_level(),
    ]);
}

proof fn lemma_quartered_split(e: Envelope, a: nat, b: nat)
    ensures
        e.quartered_times(a + b) == e.quartered_times(a).quartered_times(b),
    decreases b,
{
    if b > 0 {
        lemma_quartered_split(e, a, (b - 1) as nat);
        assert(((a + b) - 1) as nat == a + (b - 1) as nat);
    }
}

proof fn lemma_divider_runs_down(e: Envelope, k: nat)
    requires
        !e.start,
        k <= e.divider,
    ensures
        e.quartered_times(k) == (Envelope { divider: (e.divider - k) as u8, ..e }),
    decreases k,
{
    if k > 0 {
        lemma_divider_runs_down(e, (k - 1) as nat);
    }
}

/// One decay step: from a reloaded divider, `period + 1` quarter clocks
/// step the decay down once (wrapping to 15 when looping, holding at 0
/// otherwise) and reload the divider.
proof fn lemma_one_decay_step(e: Envelope)
    requires
        !e.start,
        e.divider == e.period,
    ensures
        e.quartered_times((e.period + 1) as nat) == (Envelope {
            decay: if e.decay > 0 {
                (e.decay - 1) as u8
            } else if e.loop_ {
                15
            } else {
                0
            },
            ..e
        }),
{
    lemma_divider_runs_down(e, e.period as nat);
    assert(e.quartered_times((e.period + 1) as nat) == e.quartered_times(e.period as nat).quartered());
}

proof fn lemma_decay_steps(e: Envelope, j: nat)
    requires
        !e.start,
        e.divider == e.period,
        !e.loop_,
        e.decay <= 15,
    ensures
        e.quartered_times(j * (e.period + 1) as nat) == (Envelope {
            decay: if j <= e.decay { (e.decay - j) as u8 } else { 0 },
            ..e
        }),
    decreases j,
{
    if j > 0 {
        let p1 = (e.period + 1) as nat;
        lemma_decay_steps(e, (j - 1) as nat);
        let m = e.quartered_times(((j - 1) * p1) as nat);
        lemma_one_decay_step(m);
        assert(j * p1 == (j - 1) * p1 + p1) by (nonlinear_arith);
        assert(((j - 1) * p1) as nat + p1 == j * (e.period + 1) as nat);
        lemma_quartered_split(e, ((j - 1) * p1) as nat, p1);
        assert(m.period == e.period);
        assert(e.quartered_times(j * (e.period + 1) as nat) == m.quartered_times(p1));
        let want: u8 = if j <= e.decay { (e.decay - j) as u8 } else { 0 };
        assert(m.quartered_times(p1).decay == want);
        assert(m.quartered_times(p1) == (Envelope { decay: want, ..e }));
    } else {
        assert(j * (e.period + 1) as nat == 0) by (nonlinear_arith)
            requires
                j == 0,
        ;
        assert(e.quartered_times(0) == e);
    }
}

/// The envelope's decay: a start is taken on the next quarter-frame
/// clock, which loads the decay with 15; without looping, the decay then
/// steps down once every `period + 1` quarter clocks and holds at 0.
pub proof fn law_envelope_decays_from_15(e: Envelope, j: nat)
    requires
        e.wf(),
        !e.loops(),
    ensures
        e.started().quartered().decay_level() == 15,
        e.started().quartered().quartered_times(j * (e.period_value() + 1) as nat).decay_level() == if j <= 15 {
            15 - j
        } else {
            0
        },
{
    let s = e.started().quartered();
    lemma_decay_steps(s, j);
}

proof fn lemma_decay_loops(e: Envelope, j: nat)
    requires
        !e.start,
        e.divider == e.period,
        e.loop_,
        e.decay <= 15,
    ensures
        e.quartered_times(j * (e.period + 1) as nat) == (Envelope { decay: ((e.decay - j) % 16) as u8, ..e }),
    decreases j,
{
    let p1 = (e.period + 1) as nat;
    if j == 0 {
        assert(j * p1 == 0) by (nonlinear_arith)
            requires
                j == 0,
        ;
        assert((e.decay - j) % 16 == e.decay);
    } else {
        lemma_decay_loops(e, (j - 1) as nat);
        let m = e.quartered_times(((j - 1) * p1) as nat);
        lemma_one_decay_step(m);
        assert(j * p1 == (j - 1) * p1 + p1) by (nonlinear_arith);
        assert(((j - 1) * p1) as nat + p1 == j * (e.period + 1) as nat);
        lemma_quartered_split(e, ((j - 1) * p1) as nat, p1);
        let x = e.decay - (j - 1);
        assert(x % 16 > 0 ==> x % 16 - 1 == (x - 1) % 16);
        assert(x % 16 == 0 ==> 15 == (x - 1) % 16);
    }
}

/// A looping envelope's decay wraps: from a start it loads 15, then
/// steps down once every `period + 1` quarter clocks, from 0 back to 15.
pub proof fn law_looping_envelope_wraps(e: Envelope, j: nat)
    requires
        e.wf(),
        e.loops(),
    ensures
        e.started().quartered().quartered_times(j * (e.period_value() + 1) as nat).decay_level() == (15 - j) % 16,
{
    let s = e.started().quartered();
    lemma_decay_loops(s, j);
}

/// A halted length counter holds: half-frame clocks neither count it
/// down nor expire it.
pub proof fn law_halted_length_holds(l: Length, k: nat)
    requires
        l.is_halted(),
    ensures
        l.halved_times(k) == l,
    decreases k,
{
    if k > 0 {
        law_halted_length_holds(l, (k - 1) as nat);
    }
}

/// The LFSR timer's unit clocks exactly `lag` half-steps after the tick
/// that lands the register on its terminal, and on no half-step before.
pub proof fn law_timer_clocks_lag_half_steps_after_terminal(t: Timer, rate: u8, k: nat)
    requires
        t.state() != t.shape_of().terminal,
        t.shifted() == t.shape_of().terminal,
        t.unit_lag() >= 1,
        k < t.unit_lag(),
    ensures
        t.ticked(rate).countdown() == t.unit_lag(),
        t.ticked(rate).counted_times(k).counted().1 <==> k == t.unit_lag() - 1,
{
    let u = t.ticked(rate);
    lemma_countdown_runs(u, k);
}

proof fn lemma_countdown_runs(u: Timer, k: nat)
    requires
        k <= u.pending,
    ensures
        u.counted_times(k) == (Timer { pending: (u.pending - k) as u8, ..u }),
    decreases k,
{
    if k > 0 {
        lemma_countdown_runs(u, (k - 1) as nat);
    }
}

} // verus!
