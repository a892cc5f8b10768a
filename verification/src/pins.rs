//! The 2A03's core at the pin contract, one frame per clk0 phase, as
//! the memory harness drives it: the program placed, the reset vector
//! set, the inputs a script asks for, and the frame read off the pins.
//! The contract's h=0 is the first opcode fetch after the reset vector
//! reads, `ALIGN_PHASES` clk0 phases after the frame power-on leaves;
//! the host walks there and holds the frame it lands on to a sync-high
//! fetch of the reset vector. RDY and SO are not 2A03 pins: a script
//! that asks for either non-idle is recorded, so a comparison against
//! such a trace can refuse by name.

use vstd::prelude::*;
use crate::harness::{Harness, Load, place_loads, placed_all, with_reset_vector, pack_bits, packed, MEMORY_SIZE};
use crate::lockstep::PinFrame;

verus! {

/// clk0 phases from the frame power-on leaves to the first opcode fetch
/// after the reset vector reads. Measured, then asserted.
pub const ALIGN_PHASES: u64 = 17;

/// The levels of one frame's pins, as the engine reports them: the
/// address bus low bit first, the data bus likewise, and the lines.
pub struct PinLevels {
    pub clk0: bool,
    pub ab: Vec<bool>,
    pub db: Vec<bool>,
    pub rw: bool,
    pub sync: bool,
    pub res: bool,
    pub irq: bool,
    pub nmi: bool,
    pub rdy: bool,
    pub so: bool,
}

pub struct CorePins {
    pub har: Harness,
    loads: Vec<Load>,
    reset_vector: u16,
    h: u64,
    /// A script asked for RDY low or SO high, pins this chip does not have.
    pub absent_pin_driven: bool,
    /// clk0 stopped under a driven input (the divider held), reported
    /// rather than spun on.
    pub clock_stopped: bool,
}

impl CorePins {
    pub closed spec fn wf(self) -> bool {
        &&& self.har.wf()
        &&& forall|i: int| 0 <= i < self.loads@.len() ==> (#[trigger] self.loads@[i]).fits()
    }

    /// The memory image the loads and the reset vector make on zeros.
    pub closed spec fn image(self) -> Seq<u8> {
        with_reset_vector(placed_all(Seq::new(MEMORY_SIZE as nat, |i: int| 0u8), self.loads@), self.reset_vector)
    }

    pub closed spec fn memory(self) -> Seq<u8> {
        self.har.memory@
    }

    pub closed spec fn harness(self) -> Harness {
        self.har
    }

    /// Whether a script asked for a pin this chip does not have.
    pub closed spec fn refused(self) -> bool {
        self.absent_pin_driven
    }

    /// Whether clk0 stopped under a driven input.
    pub closed spec fn stopped(self) -> bool {
        self.clock_stopped
    }

    pub closed spec fn vector(self) -> u16 {
        self.reset_vector
    }

    pub closed spec fn clock(self) -> u64 {
        self.h
    }

    /// The core built from what a trace's header says: the loads placed
    /// on zeroed memory, the reset vector set, nothing run yet.
    pub fn new(loads: Vec<Load>, reset_vector: u16) -> (cp: CorePins)
        requires
            forall|i: int| 0 <= i < loads@.len() ==> (#[trigger] loads@[i]).fits(),
        ensures
            cp.wf(),
            cp.memory() == cp.image(),
            cp.vector() == reset_vector,
            cp.clock() == 0,
            cp.harness().half_steps == 0,
            cp.harness().mutate_read is None,
            !cp.refused(),
            !cp.stopped(),
    {
        let mut cp = CorePins {
            har: Harness::new(),
            loads,
            reset_vector,
            h: 0,
            absent_pin_driven: false,
            clock_stopped: false,
        };
        cp.place();
        cp
    }

    fn place(&mut self)
        requires
            old(self).wf(),
            forall|i: int| 0 <= i < MEMORY_SIZE ==> #[trigger] old(self).har.memory@[i] == 0,
        ensures
            final(self).wf(),
            final(self).har.memory@ == old(self).image(),
            final(self).loads == old(self).loads,
            final(self).reset_vector == old(self).reset_vector,
            final(self).h == old(self).h,
            final(self).absent_pin_driven == old(self).absent_pin_driven,
            final(self).clock_stopped == old(self).clock_stopped,
            final(self).har.half_steps == old(self).har.half_steps,
            final(self).har.mutate_read == old(self).har.mutate_read,
    {
        assert(self.har.memory@ =~= Seq::new(MEMORY_SIZE as nat, |i: int| 0u8));
        place_loads(&mut self.har.memory, self.loads.as_slice(), self.reset_vector);
    }

    /// Power on afresh: a new harness with the loads placed, the
    /// refusals cleared, h at 0. The host then walks `ALIGN_PHASES`
    /// phases and holds the frame it lands on to `is_reset_fetch`.
    pub fn power_cycle(&mut self)
        requires
            old(self).wf(),
        ensures
            final(self).wf(),
            final(self).memory() == old(self).image(),
            final(self).image() == old(self).image(),
            final(self).vector() == old(self).vector(),
            final(self).clock() == 0,
            final(self).harness().half_steps == 0,
            final(self).harness().mutate_read is None,
            !final(self).refused(),
            !final(self).stopped(),
    {
        self.har = Harness::new();
        self.place();
        self.absent_pin_driven = false;
        self.clock_stopped = false;
        self.h = 0;
    }

    /// The frame the alignment lands on is a sync-high read of the reset
    /// vector.
    pub fn is_reset_fetch(&self, f: &PinFrame) -> (b: bool)
        ensures
            b == (f.sync && f.rw && f.ab == self.vector()),
    {
        f.sync && f.rw && f.ab == self.reset_vector
    }

    /// The levels to drive RES, IRQ and NMI to; a request for RDY low or
    /// SO high is recorded, since the 2A03 has neither pin.
    pub fn set_inputs(&mut self, res: bool, irq: bool, nmi: bool, rdy: bool, so: bool) -> (levels: (bool, bool, bool))
        ensures
            levels == (res, irq, nmi),
            final(self).refused() == (old(self).refused() || !rdy || so),
            final(self).stopped() == old(self).stopped(),
            final(self).clock() == old(self).clock(),
            final(self).harness() == old(self).harness(),
            final(self).image() == old(self).image(),
    {
        if !rdy || so {
            self.absent_pin_driven = true;
        }
        (res, irq, nmi)
    }

    /// One clk0 phase done: `flipped` is whether the harness's bounded
    /// wait saw clk0 flip; a stopped clock is recorded.
    pub fn half_step(&mut self, flipped: bool)
        requires
            old(self).clock() < u64::MAX,
        ensures
            final(self).clock() == old(self).clock() + 1,
            final(self).stopped() == (old(self).stopped() || !flipped),
            final(self).refused() == old(self).refused(),
            final(self).harness() == old(self).harness(),
            final(self).image() == old(self).image(),
    {
        if !flipped {
            self.clock_stopped = true;
        }
        self.h = self.h + 1;
    }

    /// The frame at the pins: the buses spelled from their levels, the
    /// lines as they stand, h as counted.
    pub fn pins(&self, levels: &PinLevels) -> (f: PinFrame)
        requires
            levels.ab@.len() == 16,
            levels.db@.len() == 8,
        ensures
            f.h == self.clock(),
            f.ab == packed(levels.ab@),
            f.db == packed(levels.db@),
            f.clk0 == levels.clk0,
            f.rw == levels.rw,
            f.sync == levels.sync,
            f.res == levels.res,
            f.irq == levels.irq,
            f.nmi == levels.nmi,
            f.rdy == levels.rdy,
            f.so == levels.so,
    {
        let ab = pack_bits(levels.ab.as_slice());
        let db = pack_bits(levels.db.as_slice());
        proof {
            lemma_packed_fits(levels.ab@);
            lemma_packed_fits(levels.db@);
        }
        PinFrame {
            h: self.h,
            clk0: levels.clk0,
            ab: ab as u16,
            db: db as u8,
            rw: levels.rw,
            sync: levels.sync,
            res: levels.res,
            irq: levels.irq,
            nmi: levels.nmi,
            rdy: levels.rdy,
            so: levels.so,
        }
    }

    /// The core's stack pointer as the register nodes `s0..s7` hold it:
    /// the measurement a core rung seeds its own from.
    pub fn stack_pointer(levels: &[bool]) -> (s: u8)
        requires
            levels@.len() == 8,
        ensures
            s == packed(levels@),
    {
        let v = pack_bits(levels);
        proof {
            lemma_packed_fits(levels@);
        }
        v as u8
    }

    pub fn h(&self) -> (h: u64)
        ensures
            h == self.clock(),
    {
        self.h
    }
}

proof fn lemma_packed_fits(levels: Seq<bool>)
    requires
        levels.len() <= 16,
    ensures
        levels.len() == 8 ==> packed(levels) < 256,
        levels.len() == 16 ==> packed(levels) < 65536,
{
    crate::harness::lemma_packed_below(levels);
    vstd::arithmetic::power2::lemma2_to64();
}

} // verus!
