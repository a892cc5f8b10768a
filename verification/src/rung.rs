//! The whole chip at the pins, around its core: the APU fed from the
//! core's writes, and the DMA units that take the bus from it. While a
//! DMA runs, the frame is the DMA's (its address, its byte, its R/W, RDY
//! low) and the core stands in its held read cycle underneath.
//!
//! The sprite DMA: RDY falls on the `$4014` write's own frame; the core
//! repeats its next read cycle until the first "get" frame at least
//! three frames on (h = 0 mod 4), then 256 pairs follow, a read of the
//! source page on a get cycle and a write of that byte to `$2004` on the
//! put cycle after it; RDY returns and the held fetch completes.
//!
//! The DMC fetch: RDY falls one frame after the fetch that empties the
//! buffer (the enable write's a frame later), the core repeats its next
//! read cycle, the sample byte is read on the first get frame at least
//! three on, RDY returns two frames after that read begins and the held
//! cycle runs for real. A fetch due inside a sprite DMA takes the DMA's
//! get cycle and pauses it for two cycles.
//!
//! The core runs outside the library: each half-step its host hands
//! `Rung::half_step` the core's frame and a bus to read through, and
//! performs the actions the step returns (the RDY levels to feed the
//! core, and the DMA's write to `$2004`).

use vstd::prelude::*;
use crate::apu::{Apu, SampleBus};
use crate::lockstep::PinFrame;
use crate::tables::Tables;

verus! {

/// The stack pointer at the pin contract's h=0 as the switch-level
/// chip's `s0..s7` register nodes hold it (`CorePins::stack_pointer`):
/// the value a host seeds its core's S with.
pub const STACK_AT_H0_MEASURED: u8 = 0xbd;

/// The largest frame count a rung runs to: the DMA units' deadlines
/// then stay inside `u64`.
pub const RUNG_LIMIT: u64 = 0xffff_ffff_ffff_0000;

/// A sprite DMA in flight.
#[derive(Clone, Copy, Debug)]
pub struct SpriteDma {
    page: u8,
    /// The frame the `$4014` write landed on.
    strobe: u64,
    /// The first get frame, once chosen.
    start: Option<u64>,
    /// The byte read on the current pair, for its write.
    byte: u8,
    /// The frame of the last write, once done: RDY shows high from the
    /// next frame and the core is released two frames on.
    done: Option<u64>,
    /// A DMC fetch that landed inside this DMA: the get frame its read
    /// took, and the sample address.
    collision: Option<(u64, u16)>,
}

/// A DMC sample fetch in flight.
#[derive(Clone, Copy, Debug)]
pub struct DmcFetch {
    addr: u16,
    /// The frame RDY falls on.
    request: u64,
    /// The get frame the read lands on, once chosen.
    read: Option<u64>,
    /// The frame after the read's pair: RDY high from here, the core
    /// released two frames on.
    done: Option<u64>,
}

/// What the host does after a half-step: feed the core each RDY level
/// in order (with its own RES, IRQ and NMI), and perform the write.
pub struct Actions {
    pub rdy: Vec<bool>,
    pub write: Option<(u16, u8)>,
}

pub struct Rung {
    pub apu: Apu,
    /// The sprite DMA moves this many pairs, 256 on the die.
    pub dma_pairs: usize,
    /// Whether a DMC fetch inside the sprite DMA pauses it.
    pub collision_pause: bool,
    h: u64,
    dma: Option<SpriteDma>,
    fetch: Option<DmcFetch>,
    /// The frame presented this half-step.
    frame: PinFrame,
}

/// The four-frame grain the DMA units live on: get cycles begin on
/// frames with h = 0 mod 4.
pub open spec fn is_get_frame(h: int) -> bool {
    h % 4 == 0
}

/// The work of one half-step as it goes: the rung, the frame being
/// presented, and the RDY levels fed so far.
pub type Work = (Rung, PinFrame, Seq<bool>);

impl Rung {
    pub closed spec fn wf(self) -> bool {
        &&& self.apu.wf()
        &&& !self.apu.has_pending_write()
        &&& self.apu.half_cycles() == self.h
        &&& self.timing_ok()
    }

    /// Every deadline the DMA units hold lies at most a frame ahead.
    pub closed spec fn timing_ok(self) -> bool {
        &&& self.h < RUNG_LIMIT
        &&& self.dma matches Some(d) ==> {
            &&& d.strobe <= self.h + 1
            &&& d.done matches Some(x) ==> x <= self.h
            &&& d.collision matches Some(c) ==> c.0 <= self.h && (d.start matches Some(s) && s <= c.0 + 4)
            &&& d.collision is None ==> (d.start matches Some(s) ==> s <= self.h)
        }
        &&& self.fetch matches Some(fe) ==> {
            &&& fe.request <= self.h + 1
            &&& fe.read matches Some(r) ==> r <= self.h
            &&& fe.done matches Some(x) ==> x <= self.h
        }
    }

    /// Half-cycles since the contract's h=0.
    pub closed spec fn clock(self) -> u64 {
        self.h
    }

    /// The frame presented at the pins.
    pub closed spec fn presented(self) -> PinFrame {
        self.frame
    }

    /// Whether the sprite DMA is past its strobe and not yet through its
    /// last pair.
    pub closed spec fn dma_running(self) -> bool {
        self.dma matches Some(d) && d.done is None && d.strobe <= self.h
    }

    /// The chip's APU.
    pub closed spec fn chip_apu(self) -> Apu {
        self.apu
    }

    /// The `$4015` byte the chip answers: its APU's status.
    pub closed spec fn status_answered(self) -> u8 {
        self.apu.status()
    }

    /// The chip after its `$4015` answer: the APU's frame IRQ cleared.
    pub closed spec fn status_taken(self) -> Rung {
        Rung { apu: self.apu.status_read(), ..self }
    }

    /// Whether a DMA unit holds the bus.
    pub closed spec fn holds_bus(self) -> bool {
        self.dma is Some || self.fetch is Some
    }

    pub closed spec fn power_on(t: Tables, frame: PinFrame) -> Rung {
        Rung {
            apu: Apu::power_on(t),
            dma_pairs: 256,
            collision_pause: true,
            h: 0,
            dma: None,
            fetch: None,
            frame,
        }
    }

    /// Power-cycled around a core presenting `frame`: the APU at power-on
    /// on its tables, the DMA units idle, h at 0.
    pub closed spec fn cycled(self, frame: PinFrame) -> Rung {
        Rung { apu: Apu::power_on(self.apu.table_set()), h: 0, dma: None, fetch: None, frame, ..self }
    }

    /// The frame counted, the `$4014` write's phi1 spotted (RDY falls,
    /// the DMA armed a frame on), and a phi2 write to `$4000..=$4017`
    /// delivered: `$4014`'s byte as the DMA's page, the rest to the APU.
    #[verifier::opaque]
    pub closed spec fn forwarded(self, core_frame: PinFrame) -> Work {
        let h = (self.h + 1) as u64;
        let f = PinFrame { h, ..core_frame };
        let (dma, rdy) = if f.ab == 0x4014 && !f.rw && !f.clk0 && self.dma is None {
            (
                Some(SpriteDma { page: 0, strobe: (h + 1) as u64, start: None, byte: 0, done: None, collision: None }),
                seq![false],
            )
        } else {
            (self.dma, Seq::<bool>::empty())
        };
        let r = Rung { h, dma, ..self };
        let r2 = if !f.rw && f.clk0 && 0x4000 <= f.ab <= 0x4017 {
            if f.ab == 0x4014 {
                match r.dma {
                    Some(d) => Rung { dma: Some(SpriteDma { page: f.db, ..d }), ..r },
                    None => r,
                }
            } else {
                Rung { apu: r.apu.presented((f.ab % 32) as u8, f.db), ..r }
            }
        } else {
            r
        };
        (r2, f, rdy)
    }

    /// The APU as the frame's write left it, before its half-step.
    pub closed spec fn apu_fed(self, core_frame: PinFrame) -> Apu {
        self.forwarded(core_frame).0.apu
    }

    /// The APU's fetch of this half-step becomes a request: RDY falls
    /// one frame on when the enable write asked for it, else now.
    #[verifier::opaque]
    pub closed spec fn fetch_requested(self) -> Rung {
        match self.apu.dmc_last_fetch() {
            Some(x) => Rung {
                apu: self.apu.fetch_taken(),
                fetch: Some(DmcFetch {
                    addr: x.0,
                    request: (self.h + if x.1 { 1int } else { 0int }) as u64,
                    read: None,
                    done: None,
                }),
                ..self
            },
            None => Rung { apu: self.apu.fetch_taken(), ..self },
        }
    }

    /// The standalone stall, when no sprite DMA holds the bus (`b` is
    /// the byte the sample read returns): RDY falls the frame before the
    /// request; from the request the frame is held with RDY low, the
    /// read lands on the first get frame three on and shows for its two
    /// frames, then RDY shows high and the core is released two frames
    /// after the read's pair.
    #[verifier::opaque]
    pub closed spec fn fetch_stalled(w: Work, b: u8) -> Work {
        let (r, f, rdy) = w;
        let h = r.h;
        match r.fetch {
            Some(fe) => if r.dma is None {
                let rdy1 = if h + 1 == fe.request { rdy.push(false) } else { rdy };
                if h >= fe.request {
                    let fe1 = if fe.read is None && h >= fe.request + 3 && is_get_frame(h as int) {
                        DmcFetch { read: Some(h), ..fe }
                    } else {
                        fe
                    };
                    match (fe1.read, fe1.done) {
                        (Some(rd), None) => {
                            let fe2 = if h == rd + 1 { DmcFetch { done: Some(h), ..fe1 } } else { fe1 };
                            (Rung { fetch: Some(fe2), ..r }, PinFrame { rdy: false, ab: fe.addr, db: b, rw: true, ..f }, rdy1)
                        },
                        (Some(_), Some(d)) => if h == d + 2 {
                            (Rung { fetch: None, ..r }, PinFrame { rdy: true, ..f }, rdy1.push(true))
                        } else {
                            (Rung { fetch: Some(fe1), ..r }, PinFrame { rdy: true, ..f }, rdy1)
                        },
                        _ => (Rung { fetch: Some(fe1), ..r }, PinFrame { rdy: false, ..f }, rdy1),
                    }
                } else {
                    (r, f, rdy1)
                }
            } else {
                w
            },
            None => w,
        }
    }

    /// The sprite DMA's half-step (`b` is the byte its read returns),
    /// with the write to perform: RDY low from the strobe's frame; the
    /// first get frame three on starts the pairs; a DMC fetch due on a
    /// get frame takes it for its read (two frames of its own, then the
    /// core's held cycle for two), the pairs resuming four later; each
    /// pair reads the page's next byte on its get frames and writes it
    /// to `$2004` on its put frames, the byte landing on the last; after
    /// the last pair RDY shows high and the core is released two frames
    /// on.
    #[verifier::opaque]
    pub closed spec fn dma_ran(w: Work, b: u8) -> (Work, Option<(u16, u8)>) {
        let (r, f, rdy) = w;
        let h = r.h;
        match r.dma {
            None => (w, None),
            Some(d0) => match d0.done {
                Some(done) => if h == done + 2 {
                    ((Rung { dma: None, ..r }, PinFrame { rdy: true, ..f }, rdy.push(true)), None)
                } else {
                    ((r, PinFrame { rdy: true, ..f }, rdy), None)
                },
                None => {
                    let (r2, d2, f1) = Rung::dma_scheduled(r, d0, f);
                    let (r3, f3, wr) = Rung::dma_moved(r2, d2, f1, b);
                    ((r3, f3, rdy), wr)
                },
            },
        }
    }

    /// A running DMA's schedule this frame: RDY low from the strobe, the
    /// start on the first get frame three on, and a due DMC fetch taken
    /// as a collision (pausing the pairs four frames) or, without the
    /// pause, dropped.
    pub closed spec fn dma_scheduled(r: Rung, d0: SpriteDma, f: PinFrame) -> (Rung, SpriteDma, PinFrame) {
        let h = r.h;
        let f1 = if h >= d0.strobe { PinFrame { rdy: false, ..f } } else { f };
        let d1 = if d0.start is None && h >= d0.strobe + 3 && is_get_frame(h as int) {
            SpriteDma { start: Some(h), ..d0 }
        } else {
            d0
        };
        let (d2, fetch2) = match (d1.start, r.fetch) {
            (Some(s), Some(fe)) => if d1.collision is None && fe.read is None && h >= fe.request + 3 && h >= s
                && is_get_frame(h as int) {
                if r.collision_pause {
                    (SpriteDma { collision: Some((h, fe.addr)), start: Some((s + 4) as u64), ..d1 }, None)
                } else {
                    (d1, None)
                }
            } else {
                (d1, r.fetch)
            },
            _ => (d1, r.fetch),
        };
        (Rung { fetch: fetch2, ..r }, d2, f1)
    }

    /// A running DMA's frame: the collision's read and held cycle, or
    /// the pairs.
    pub closed spec fn dma_moved(r2: Rung, d2: SpriteDma, f1: PinFrame, b: u8) -> (Rung, PinFrame, Option<(u16, u8)>) {
        let h = r2.h;
        match d2.collision {
            Some(c) => if h < c.0 + 2 {
                (Rung { dma: Some(d2), ..r2 }, PinFrame { ab: c.1, db: b, rw: true, ..f1 }, None)
            } else if h < c.0 + 4 {
                (Rung { dma: Some(d2), ..r2 }, f1, None)
            } else {
                Rung::pairs_ran(r2, SpriteDma { collision: None, ..d2 }, f1, b)
            },
            None => Rung::pairs_ran(r2, d2, f1, b),
        }
    }

    /// The pairs: the get frame reads, the put frames write.
    pub closed spec fn pairs_ran(r: Rung, d: SpriteDma, f: PinFrame, b: u8) -> (Rung, PinFrame, Option<(u16, u8)>) {
        let h = r.h;
        match d.start {
            Some(s) => {
                let i = (h - s) as u64;
                let pair = (i / 4) as usize;
                if pair < r.dma_pairs {
                    let src = (((d.page as u16) << 8u16) | (pair as u16)) as u16;
                    let (d1, f1, write) = if i % 4 == 0 {
                        (SpriteDma { byte: b, ..d }, PinFrame { ab: src, db: b, rw: true, ..f }, None)
                    } else if i % 4 == 1 {
                        (d, PinFrame { ab: src, db: d.byte, rw: true, ..f }, None)
                    } else if i % 4 == 2 {
                        (d, PinFrame { ab: 0x2004, db: d.byte, rw: false, ..f }, None)
                    } else {
                        (d, PinFrame { ab: 0x2004, db: d.byte, rw: false, ..f }, Some((0x2004u16, d.byte)))
                    };
                    let d2 = if i % 4 == 3 && pair + 1 == r.dma_pairs { SpriteDma { done: Some(h), ..d1 } } else { d1 };
                    (Rung { dma: Some(d2), ..r }, f1, write)
                } else {
                    (r, f, None)
                }
            },
            None => (Rung { dma: Some(d), ..r }, f, None),
        }
    }

    /// The read the standalone stall makes, `b` the byte returned: the
    /// sample byte at the fetch's address on each of the read's two
    /// frames; none otherwise.
    #[verifier::opaque]
    pub closed spec fn stall_reads(w: Work, b: u8) -> Seq<(u16, u8)> {
        let (r, f, rdy) = w;
        let h = r.h;
        match r.fetch {
            Some(fe) => if r.dma is None && h >= fe.request {
                let rd = if fe.read is None && h >= fe.request + 3 && is_get_frame(h as int) {
                    Some(h)
                } else {
                    fe.read
                };
                if rd is Some && fe.done is None {
                    seq![(fe.addr, b)]
                } else {
                    Seq::empty()
                }
            } else {
                Seq::empty()
            },
            None => Seq::empty(),
        }
    }

    /// The read the pairs make: the page's byte `pair` on each pair's
    /// get frame, `(page << 8) | pair`; none on the other frames.
    pub closed spec fn pairs_reads(r: Rung, d: SpriteDma, b: u8) -> Seq<(u16, u8)> {
        match d.start {
            Some(s) => {
                let i = (r.h - s) as u64;
                let pair = (i / 4) as usize;
                if pair < r.dma_pairs && i % 4 == 0 {
                    seq![((((d.page as u16) << 8u16) | (pair as u16)) as u16, b)]
                } else {
                    Seq::empty()
                }
            },
            None => Seq::empty(),
        }
    }

    /// The read the sprite DMA makes, `b` the byte returned: a
    /// collision's sample read at the DMC's address on its two frames,
    /// else the pairs' read.
    #[verifier::opaque]
    pub closed spec fn dma_reads(w: Work, b: u8) -> Seq<(u16, u8)> {
        let (r, f, rdy) = w;
        match r.dma {
            Some(d0) => if d0.done is None {
                let (r2, d2, f1) = Rung::dma_scheduled(r, d0, f);
                match d2.collision {
                    Some(c) => if r2.h < c.0 + 2 {
                        seq![(c.1, b)]
                    } else if r2.h < c.0 + 4 {
                        Seq::empty()
                    } else {
                        Rung::pairs_reads(r2, SpriteDma { collision: None, ..d2 }, b)
                    },
                    None => Rung::pairs_reads(r2, d2, b),
                }
            } else {
                Seq::empty()
            },
            None => Seq::empty(),
        }
    }

    /// The reads of the half-step after the APU's, in order: the stall's,
    /// then the sprite DMA's.
    #[verifier::opaque]
    pub closed spec fn finished_reads(self, core_frame: PinFrame, a: Apu, bs: u8, bd: u8) -> Seq<(u16, u8)> {
        let (r0, f0, rdy0) = self.forwarded(core_frame);
        let r1 = Rung { apu: a, ..r0 }.fetch_requested();
        let w2 = Rung::fetch_stalled((r1, f0, rdy0), bs);
        Rung::stall_reads((r1, f0, rdy0), bs) + Rung::dma_reads(w2, bd)
    }

    /// The half-step after the APU's: `a` is the APU as its half-step
    /// left it, `bs` the stall's sample read, `bd` the DMA's read.
    #[verifier::opaque]
    pub closed spec fn finished(self, core_frame: PinFrame, a: Apu, bs: u8, bd: u8) -> (Rung, Seq<bool>, Option<(u16, u8)>) {
        let (r0, f0, rdy0) = self.forwarded(core_frame);
        let r1 = Rung { apu: a, ..r0 }.fetch_requested();
        let w2 = Rung::fetch_stalled((r1, f0, rdy0), bs);
        let (w3, write) = Rung::dma_ran(w2, bd);
        (Rung { frame: w3.1, ..w3.0 }, w3.2, write)
    }
}

impl Rung {
    /// The chip at h=0 around a core presenting `frame`, with the APU
    /// built around `tables`.
    pub fn new(tables: Tables, frame: PinFrame) -> (r: Rung)
        requires
            tables.wf(),
        ensures
            r == Rung::power_on(tables, frame),
            r.wf(),
    {
        Rung { apu: Apu::new(tables), dma_pairs: 256, collision_pause: true, h: 0, dma: None, fetch: None, frame }
    }

    /// Back to h=0 with the core's new frame: the APU power-cycled, the
    /// DMA units idle.
    pub fn power_cycle(&mut self, frame: PinFrame)
        requires
            old(self).wf(),
        ensures
            *final(self) == old(self).cycled(frame),
            final(self).wf(),
    {
        self.apu.power_cycle();
        self.h = 0;
        self.dma = None;
        self.fetch = None;
        self.frame = frame;
    }

    /// The inputs to feed the core: RES, IRQ and NMI as given, RDY low
    /// while a DMA unit holds the bus, SO low (RDY and SO are not this
    /// chip's pins).
    pub fn set_inputs(&self, res: bool, irq: bool, nmi: bool, rdy: bool, so: bool) -> (i: (bool, bool, bool, bool, bool))
        ensures
            i == (res, irq, nmi, !self.holds_bus(), false),
    {
        let held = self.dma.is_some() || self.fetch.is_some();
        (res, irq, nmi, !held, false)
    }

    /// The frame presented this half-step.
    pub fn pins(&self) -> (f: PinFrame)
        ensures
            f == self.presented(),
    {
        self.frame
    }

    /// What the core latches for a read of `a` whose frame this
    /// half-step presented: `$4015` is answered inside the chip, with the
    /// APU's status as it stands at the end of the read's phi2 (after the
    /// frame's half-step, so a flag rising in it reads as set), and the
    /// read clears the frame IRQ; any other address is the world's, and
    /// the chip answers nothing.
    pub fn read_late(&mut self, a: u16) -> (v: Option<u8>)
        requires
            old(self).wf(),
        ensures
            a == 0x4015 ==> v == Some(old(self).status_answered()) && *final(self) == old(self).status_taken(),
            a != 0x4015 ==> v is None && *final(self) == *old(self),
            final(self).wf(),
    {
        if a == 0x4015 {
            Some(self.apu.read_status())
        } else {
            None
        }
    }

    /// Half-cycles since the contract's h=0.
    pub fn h(&self) -> (h: u64)
        ensures
            h == self.clock(),
    {
        self.h
    }

    fn is_get(h: u64) -> (b: bool)
        ensures
            b == is_get_frame(h as int),
    {
        h % 4 == 0
    }

    fn forward(&mut self, core_frame: PinFrame) -> (out: (PinFrame, Vec<bool>))
        requires
            old(self).wf(),
            old(self).h + 1 < RUNG_LIMIT,
        ensures
            (*final(self), out.0, out.1@) == old(self).forwarded(core_frame),
            final(self).apu.wf(),
            final(self).apu.half_cycles() == old(self).h,
            final(self).h == old(self).h + 1,
            final(self).timing_ok(),
    {
        reveal(Rung::forwarded);
        self.h = self.h + 1;
        let h = self.h;
        let mut f = core_frame;
        f.h = h;
        let mut rdy: Vec<bool> = Vec::new();
        if f.ab == 0x4014 && !f.rw && !f.clk0 && self.dma.is_none() {
            self.dma = Some(SpriteDma { page: 0, strobe: h + 1, start: None, byte: 0, done: None, collision: None });
            rdy.push(false);
            assert(rdy@ =~= seq![false]);
        }
        if !f.rw && f.clk0 && 0x4000 <= f.ab && f.ab <= 0x4017 {
            if f.ab == 0x4014 {
                match self.dma {
                    Some(d) => {
                        self.dma = Some(SpriteDma { page: f.db, ..d });
                    },
                    None => {},
                }
            } else {
                self.apu.write((f.ab % 32) as u8, f.db);
            }
        }
        (f, rdy)
    }

    fn request_fetch(&mut self)
        requires
            old(self).apu.wf(),
            old(self).timing_ok(),
        ensures
            *final(self) == old(self).fetch_requested(),
            final(self).apu.wf(),
            final(self).apu.half_cycles() == old(self).apu.half_cycles(),
            final(self).apu.has_pending_write() == old(self).apu.has_pending_write(),
            final(self).timing_ok(),
            final(self).h == old(self).h,
    {
        reveal(Rung::fetch_requested);
        match self.apu.take_dmc_fetch() {
            Some(x) => {
                let delay: u64 = if x.1 { 1 } else { 0 };
                self.fetch = Some(DmcFetch { addr: x.0, request: self.h + delay, read: None, done: None });
            },
            None => {},
        }
    }

    /// The standalone stall; returns the byte its read returned (zero
    /// when it read none).
    fn stall<B: SampleBus>(&mut self, f: &mut PinFrame, rdy: &mut Vec<bool>, bus: &mut B) -> (b: u8)
        requires
            old(self).timing_ok(),
        ensures
            (*final(self), *final(f), final(rdy)@) == Rung::fetch_stalled((*old(self), *old(f), old(rdy)@), b),
            final(bus).reads() == old(bus).reads() + Rung::stall_reads((*old(self), *old(f), old(rdy)@), b),
            final(self).timing_ok(),
            final(self).apu == old(self).apu,
            final(self).h == old(self).h,
    {
        reveal(Rung::fetch_stalled);
        reveal(Rung::stall_reads);
        let h = self.h;
        match self.fetch {
            Some(fe) => {
                if self.dma.is_some() {
                    return 0;
                }
                if h + 1 == fe.request {
                    rdy.push(false);
                }
                if h >= fe.request {
                    let mut fe1 = fe;
                    if fe1.read.is_none() && h >= fe.request + 3 && Rung::is_get(h) {
                        fe1.read = Some(h);
                    }
                    match (fe1.read, fe1.done) {
                        (Some(rd), None) => {
                            let b = bus.read(fe.addr);
                            f.rdy = false;
                            f.ab = fe.addr;
                            f.db = b;
                            f.rw = true;
                            if h == rd + 1 {
                                fe1.done = Some(h);
                            }
                            self.fetch = Some(fe1);
                            return b;
                        },
                        (Some(_), Some(d)) => {
                            f.rdy = true;
                            if h == d + 2 {
                                rdy.push(true);
                                self.fetch = None;
                            } else {
                                self.fetch = Some(fe1);
                            }
                        },
                        _ => {
                            f.rdy = false;
                            self.fetch = Some(fe1);
                        },
                    }
                }
                0
            },
            None => 0,
        }
    }
}

impl Rung {
    fn run_pairs<B: SampleBus>(&mut self, d: SpriteDma, f: &mut PinFrame, bus: &mut B) -> (out: (Option<(u16, u8)>, u8))
        requires
            old(self).h < RUNG_LIMIT,
            d.start matches Some(s) ==> s <= old(self).h,
        ensures
            (*final(self), *final(f), out.0) == Rung::pairs_ran(*old(self), d, *old(f), out.1),
            final(bus).reads() == old(bus).reads() + Rung::pairs_reads(*old(self), d, out.1),
    {
        let h = self.h;
        match d.start {
            Some(s) => {
                let i = h - s;
                let pair = (i / 4) as usize;
                if pair < self.dma_pairs {
                    let src = ((d.page as u16) << 8u16) | (pair as u16);
                    let mut d1 = d;
                    let mut write: Option<(u16, u8)> = None;
                    let mut b: u8 = 0;
                    if i % 4 == 0 {
                        b = bus.read(src);
                        d1.byte = b;
                        f.ab = src;
                        f.db = b;
                        f.rw = true;
                    } else if i % 4 == 1 {
                        f.ab = src;
                        f.db = d.byte;
                        f.rw = true;
                    } else if i % 4 == 2 {
                        f.ab = 0x2004;
                        f.db = d.byte;
                        f.rw = false;
                    } else {
                        // The put cycle's phi2: the byte lands.
                        f.ab = 0x2004;
                        f.db = d.byte;
                        f.rw = false;
                        write = Some((0x2004u16, d.byte));
                    }
                    if i % 4 == 3 && pair + 1 == self.dma_pairs {
                        d1.done = Some(h);
                    }
                    self.dma = Some(d1);
                    (write, b)
                } else {
                    (None, 0)
                }
            },
            None => {
                self.dma = Some(d);
                (None, 0)
            },
        }
    }

    /// The sprite DMA's half-step; returns the write to perform and the
    /// byte its read returned (zero when it read none).
    fn run_dma<B: SampleBus>(&mut self, f: &mut PinFrame, rdy: &mut Vec<bool>, bus: &mut B) -> (out: (Option<(u16, u8)>, u8))
        requires
            old(self).timing_ok(),
        ensures
            ((*final(self), *final(f), final(rdy)@), out.0) == Rung::dma_ran((*old(self), *old(f), old(rdy)@), out.1),
            final(bus).reads() == old(bus).reads() + Rung::dma_reads((*old(self), *old(f), old(rdy)@), out.1),
            final(self).timing_ok(),
            final(self).apu == old(self).apu,
            final(self).h == old(self).h,
    {
        reveal(Rung::dma_ran);
        reveal(Rung::dma_reads);
        let h = self.h;
        match self.dma {
            None => (None, 0),
            Some(d0) => {
                match d0.done {
                    Some(done) => {
                        f.rdy = true;
                        if h == done + 2 {
                            rdy.push(true);
                            self.dma = None;
                        }
                        (None, 0)
                    },
                    None => {
                        let d = self.schedule_dma(d0, f);
                        self.move_dma(d, f, bus)
                    },
                }
            },
        }
    }

    fn schedule_dma(&mut self, d0: SpriteDma, f: &mut PinFrame) -> (d: SpriteDma)
        requires
            old(self).timing_ok(),
            old(self).dma == Some(d0),
            d0.done is None,
        ensures
            (*final(self), d, *final(f)) == Rung::dma_scheduled(*old(self), d0, *old(f)),
            d.collision matches Some(c) ==> c.0 <= final(self).h && (d.start matches Some(s) && s <= c.0 + 4),
            d.collision is None ==> (d.start matches Some(s) ==> s <= final(self).h),
            final(self).h == old(self).h,
            final(self).h < RUNG_LIMIT,
    {
        let h = self.h;
        if h >= d0.strobe {
            f.rdy = false;
        }
        let mut d = d0;
        if d.start.is_none() && h >= d0.strobe + 3 && Rung::is_get(h) {
            d.start = Some(h);
        }
        match (d.start, self.fetch) {
            (Some(s), Some(fe)) => {
                if d.collision.is_none() && fe.read.is_none() && h >= fe.request + 3 && h >= s && Rung::is_get(h) {
                    if self.collision_pause {
                        d.collision = Some((h, fe.addr));
                        d.start = Some(s + 4);
                    }
                    self.fetch = None;
                }
            },
            _ => {},
        }
        d
    }

    fn move_dma<B: SampleBus>(&mut self, d2: SpriteDma, f: &mut PinFrame, bus: &mut B) -> (out: (Option<(u16, u8)>, u8))
        requires
            old(self).h < RUNG_LIMIT,
            d2.collision matches Some(c) ==> c.0 <= old(self).h && (d2.start matches Some(s) && s <= c.0 + 4),
            d2.collision is None ==> (d2.start matches Some(s) ==> s <= old(self).h),
        ensures
            (*final(self), *final(f), out.0) == Rung::dma_moved(*old(self), d2, *old(f), out.1),
            final(bus).reads() == old(bus).reads() + match d2.collision {
                Some(c) => if old(self).h < c.0 + 2 {
                    seq![(c.1, out.1)]
                } else if old(self).h < c.0 + 4 {
                    Seq::empty()
                } else {
                    Rung::pairs_reads(*old(self), SpriteDma { collision: None, ..d2 }, out.1)
                },
                None => Rung::pairs_reads(*old(self), d2, out.1),
            },
    {
        let h = self.h;
        let mut d = d2;
        match d.collision {
            Some(c) => {
                if h < c.0 + 2 {
                    // The sample read, on the DMC's own address.
                    let b = bus.read(c.1);
                    f.ab = c.1;
                    f.db = b;
                    f.rw = true;
                    self.dma = Some(d);
                    return (None, b);
                }
                if h < c.0 + 4 {
                    // The core's held cycle shows through for one cycle.
                    self.dma = Some(d);
                    return (None, 0);
                }
                d.collision = None;
            },
            None => {},
        }
        self.run_pairs(d, f, bus)
    }

    /// One CPU half-cycle of the chip around its core: `core_frame` is
    /// the core's frame after its own half-step, `bus` what the DMC's
    /// and the DMA's reads go through. The frame presented, the DMA
    /// units' state and the APU move as `finished` says, for the bytes
    /// the reads returned, and the bus's log grows by exactly those
    /// reads: the APU's (`step_reads`), then the stall's and the DMA's
    /// (`finished_reads`). The host then feeds the core `rdy` in order
    /// and performs `write`.
    pub fn half_step<B: SampleBus>(&mut self, core_frame: PinFrame, bus: &mut B) -> (act: Actions)
        requires
            old(self).wf(),
            old(self).clock() + 1 < RUNG_LIMIT,
        ensures
            final(self).wf(),
            final(self).clock() == old(self).clock() + 1,
            exists|b1: u8, b2: u8, bs: u8, bd: u8|
                #![trigger old(self).apu_fed(core_frame).stepped(b1, b2), old(self).finished_reads(core_frame, old(self).apu_fed(core_frame).stepped(b1, b2), bs, bd)]
                {
                    let a = old(self).apu_fed(core_frame).stepped(b1, b2);
                    &&& (*final(self), act.rdy@, act.write) == old(self).finished(core_frame, a, bs, bd)
                    &&& final(bus).reads() == old(bus).reads() + old(self).apu_fed(core_frame).step_reads(b1, b2)
                        + old(self).finished_reads(core_frame, a, bs, bd)
                },
    {
        let ghost s0 = *self;
        let (mut f, mut rdy) = self.forward(core_frame);
        let ghost a0 = self.apu;
        assert(a0 == s0.apu_fed(core_frame));
        let ghost log0 = bus.reads();
        self.apu.half_step(bus);
        let ghost a = self.apu;
        let ghost (b1, b2) = choose|b1: u8, b2: u8|
            a == a0.stepped(b1, b2) && bus.reads() == log0 + a0.step_reads(b1, b2);
        assert(a == s0.apu_fed(core_frame).stepped(b1, b2));
        let ghost log1 = bus.reads();
        self.request_fetch();
        let bs = self.stall(&mut f, &mut rdy, bus);
        let (write, bd) = self.run_dma(&mut f, &mut rdy, bus);
        self.frame = f;
        assert((*self, rdy@, write) == s0.finished(core_frame, a, bs, bd)) by {
            reveal(Rung::finished);
        }
        assert(bus.reads() =~= log0 + a0.step_reads(b1, b2) + s0.finished_reads(core_frame, a, bs, bd)) by {
            reveal(Rung::finished_reads);
            reveal(Rung::finished);
        }
        Actions { rdy, write }
    }
}


/// The first get frame at least three frames after a sprite DMA's
/// strobe: where its pairs start.
pub open spec fn dma_start(strobe: int) -> int {
    strobe + 3 + (4 - (strobe + 3) % 4) % 4
}

/// The frame of a sprite DMA's last write, `n` pairs after its start.
pub open spec fn dma_done(strobe: int, n: int) -> int {
    dma_start(strobe) + 4 * n - 1
}

impl Rung {
    /// The sprite DMA of `page` strobed at `strobe`, moving `n` pairs
    /// whose get frames read `bytes`, as it stands after frame `h`: its
    /// start once reached, the byte of the pair in hand, and its done
    /// frame once reached.
    pub closed spec fn dma_state_at(page: u8, strobe: u64, n: int, bytes: Seq<u8>, h: int) -> SpriteDma {
        let st = dma_start(strobe as int);
        let done = dma_done(strobe as int, n);
        SpriteDma {
            page,
            strobe,
            start: if h >= st { Some(st as u64) } else { None },
            byte: if h >= st {
                if (h - st) / 4 < n - 1 {
                    bytes[(h - st) / 4]
                } else {
                    bytes[n - 1]
                }
            } else {
                0
            },
            done: if h >= done { Some(done as u64) } else { None },
            collision: None,
        }
    }

    /// The rung stands in a sprite DMA of `page` strobed at `strobe`
    /// (the page written, no DMC fetch pending), between its strobe and
    /// the frame after its last write, its get frames having read
    /// `bytes`.
    pub closed spec fn in_sprite_dma(self, page: u8, strobe: u64, bytes: Seq<u8>) -> bool {
        &&& self.fetch is None
        &&& self.dma == Some(Rung::dma_state_at(page, strobe, self.dma_pairs as int, bytes, self.h as int))
        &&& strobe <= self.h <= dma_done(strobe as int, self.dma_pairs as int) + 1
    }

    /// The number of pairs a sprite DMA moves.
    pub closed spec fn pairs(self) -> int {
        self.dma_pairs as int
    }

    /// Whether a sprite DMA is in flight.
    pub closed spec fn sprite_dma_pending(self) -> bool {
        self.dma is Some
    }
}

/// Every frame of a sprite DMA, with no DMC fetch and no new `$4014`
/// write from the held core: the frames from the strobe through the
/// last write show RDY low; pair `i`'s get frame (`dma_start + 4i`)
/// reads `(page << 8) | i` from the bus and shows it, its next frame
/// shows it again, its two put frames show the byte read on the way to
/// `$2004`, and the second performs that write; the frame after the
/// last write shows RDY high, and the one after it ends the DMA and
/// feeds the core RDY high.
#[verifier::spinoff_prover]
#[verifier::rlimit(60)]
pub proof fn law_sprite_dma_frame(
    r: Rung,
    core_frame: PinFrame,
    a: Apu,
    bs: u8,
    bd: u8,
    page: u8,
    strobe: u64,
    bytes: Seq<u8>,
)
    requires
        r.clock() + 1 < RUNG_LIMIT,
        r.in_sprite_dma(page, strobe, bytes),
        r.pairs() >= 1,
        bytes.len() >= r.pairs(),
        a.dmc_last_fetch() is None,
        !(core_frame.ab == 0x4014 && !core_frame.rw && core_frame.clk0),
        ({
            let h = r.clock() + 1;
            let st = dma_start(strobe as int);
            st <= h && (h - st) % 4 == 0 && (h - st) / 4 < r.pairs() ==> bd == bytes[(h - st) / 4]
        }),
    ensures
        ({
            let h = r.clock() + 1;
            let st = dma_start(strobe as int);
            let done = dma_done(strobe as int, r.pairs());
            let (r2, rdy, write) = r.finished(core_frame, a, bs, bd);
            let f = r2.presented();
            let i = h - st;
            &&& h <= done + 1 ==> r2.in_sprite_dma(page, strobe, bytes)
            &&& h == done + 2 ==> !r2.sprite_dma_pending()
            &&& r2.pairs() == r.pairs()
            &&& r2.clock() == h
            &&& f.rdy == (h > done)
            &&& rdy == (if h == done + 2 { seq![true] } else { Seq::<bool>::empty() })
            &&& st <= h <= done ==> {
                &&& f.ab == (if i % 4 < 2 { (((page as u16) << 8u16) | ((i / 4) as u16)) as u16 } else { 0x2004u16 })
                &&& f.rw == (i % 4 < 2)
                &&& f.db == bytes[i / 4]
            }
            &&& write == (if st <= h <= done && i % 4 == 3 {
                Some((0x2004u16, bytes[i / 4]))
            } else {
                None::<(u16, u8)>
            })
            &&& r.finished_reads(core_frame, a, bs, bd) == (if st <= h <= done && i % 4 == 0 {
                seq![((((page as u16) << 8u16) | ((i / 4) as u16)) as u16, bd)]
            } else {
                Seq::<(u16, u8)>::empty()
            })
        }),
{
    reveal(Rung::finished);
    reveal(Rung::finished_reads);
    reveal(Rung::forwarded);
    reveal(Rung::fetch_requested);
    reveal(Rung::fetch_stalled);
    reveal(Rung::stall_reads);
    reveal(Rung::dma_ran);
    reveal(Rung::dma_reads);
}

/// `k` half-steps of the chip, step `j` taking the core's frame
/// `frames[j]`, leaving the APU at `apus[j]`, and its stall's and DMA's
/// reads returning `bss[j]` and `bds[j]`: the rung after them, the
/// writes it performed in order, and how many of their frames showed
/// RDY low.
pub open spec fn run_steps(
    r: Rung,
    frames: Seq<PinFrame>,
    apus: Seq<Apu>,
    bss: Seq<u8>,
    bds: Seq<u8>,
    k: nat,
) -> (Rung, Seq<(u16, u8)>, nat)
    decreases k,
{
    if k == 0 {
        (r, Seq::empty(), 0)
    } else {
        let (rp, ws, low) = run_steps(r, frames, apus, bss, bds, (k - 1) as nat);
        let (r2, rdy, w) = rp.finished(frames[k - 1], apus[k - 1], bss[k - 1], bds[k - 1]);
        (
            r2,
            match w {
                Some(x) => ws.push(x),
                None => ws,
            },
            if r2.presented().rdy { low } else { low + 1 },
        )
    }
}

/// How many of a sprite DMA's `n` writes have landed by frame `h`.
pub open spec fn writes_by(strobe: int, n: int, h: int) -> int {
    let st = dma_start(strobe);
    if h < st + 3 {
        0
    } else if (h - st - 3) / 4 + 1 < n {
        (h - st - 3) / 4 + 1
    } else {
        n
    }
}

/// A sprite DMA run from its page write on: held core frames that write
/// no new `$4014`, no DMC fetch, and get frames reading the page's
/// bytes. After `k` half-steps the writes performed are the page's
/// first bytes to `$2004`, in order, as many as have landed; the frames
/// shown with RDY low are those through the last write; and two frames
/// after the last write the DMA is over.
pub proof fn law_sprite_dma_moves_the_page(
    r: Rung,
    frames: Seq<PinFrame>,
    apus: Seq<Apu>,
    bss: Seq<u8>,
    bds: Seq<u8>,
    page: u8,
    bytes: Seq<u8>,
    k: nat,
)
    requires
        r.in_sprite_dma(page, r.clock(), bytes),
        r.pairs() >= 1,
        bytes.len() >= r.pairs(),
        r.clock() + k + 1 < RUNG_LIMIT,
        r.clock() + k <= dma_done(r.clock() as int, r.pairs()) + 2,
        frames.len() >= k,
        apus.len() >= k,
        bss.len() >= k,
        bds.len() >= k,
        forall|j: int| 0 <= j < k ==> (#[trigger] apus[j]).dmc_last_fetch() is None,
        forall|j: int| 0 <= j < k ==> !((#[trigger] frames[j]).ab == 0x4014 && !frames[j].rw && frames[j].clk0),
        forall|j: int|
            0 <= j < k ==> {
                let h = r.clock() + 1 + j;
                let st = dma_start(r.clock() as int);
                st <= h && (h - st) % 4 == 0 && (h - st) / 4 < r.pairs() ==> #[trigger] bds[j] == bytes[(h - st) / 4]
            },
    ensures
        ({
            let s = r.clock() as int;
            let done = dma_done(s, r.pairs());
            let h = s + k;
            let (rk, ws, low) = run_steps(r, frames, apus, bss, bds, k);
            &&& rk.clock() == h
            &&& rk.pairs() == r.pairs()
            &&& h <= done + 1 ==> rk.in_sprite_dma(page, r.clock(), bytes)
            &&& h == done + 2 ==> !rk.sprite_dma_pending()
            &&& ws == Seq::new(writes_by(s, r.pairs(), h) as nat, |i: int| (0x2004u16, bytes[i]))
            &&& low == (if h <= done { h - s } else { done - s })
        }),
    decreases k,
{
    let s = r.clock() as int;
    let n = r.pairs();
    let st = dma_start(s);
    let done = dma_done(s, n);
    if k == 0 {
        assert(writes_by(s, n, s) == 0);
        assert(Seq::new(0, |i: int| (0x2004u16, bytes[i])) =~= Seq::<(u16, u8)>::empty());
    } else {
        let km = (k - 1) as nat;
        law_sprite_dma_moves_the_page(r, frames, apus, bss, bds, page, bytes, km);
        let (rp, ws, low) = run_steps(r, frames, apus, bss, bds, km);
        let j = km as int;
        assert(apus[j].dmc_last_fetch() is None);
        assert(!(frames[j].ab == 0x4014 && !frames[j].rw && frames[j].clk0));
        let h = s + k;
        assert(st <= h && (h - st) % 4 == 0 && (h - st) / 4 < n ==> bds[j] == bytes[(h - st) / 4]);
        law_sprite_dma_frame(rp, frames[j], apus[j], bss[j], bds[j], page, r.clock(), bytes);
        let (r2, rdy, w) = rp.finished(frames[j], apus[j], bss[j], bds[j]);
        let i = h - st;
        if st <= h <= done && i % 4 == 3 {
            assert(writes_by(s, n, h - 1) == i / 4);
            assert(writes_by(s, n, h) == i / 4 + 1);
            assert(ws.push((0x2004u16, bytes[i / 4])) =~= Seq::new(writes_by(s, n, h) as nat, |x: int| (0x2004u16, bytes[x])));
        } else {
            assert(writes_by(s, n, h) == writes_by(s, n, h - 1));
        }
    }
}

/// A whole sprite DMA of 256 pairs, run from its page write (the strobe
/// frame) to its end under the same conditions: the page's 256 bytes
/// reach `$2004` in order; the frames from the strobe through the last
/// write, which show RDY low, number `1024 + (dma_start - strobe)`:
/// 1,027 when the strobe falls on h = 1 (mod 4) and 1,029 when on
/// h = 3; and the DMA is over.
pub proof fn law_sprite_dma_stall(
    r: Rung,
    frames: Seq<PinFrame>,
    apus: Seq<Apu>,
    bss: Seq<u8>,
    bds: Seq<u8>,
    page: u8,
    bytes: Seq<u8>,
)
    requires
        r.in_sprite_dma(page, r.clock(), bytes),
        r.pairs() == 256,
        bytes.len() >= 256,
        r.clock() + 1100 < RUNG_LIMIT,
        frames.len() >= 1100,
        apus.len() >= 1100,
        bss.len() >= 1100,
        bds.len() >= 1100,
        forall|j: int| 0 <= j < 1100 ==> (#[trigger] apus[j]).dmc_last_fetch() is None,
        forall|j: int| 0 <= j < 1100 ==> !((#[trigger] frames[j]).ab == 0x4014 && !frames[j].rw && frames[j].clk0),
        forall|j: int|
            0 <= j < 1100 ==> {
                let h = r.clock() + 1 + j;
                let st = dma_start(r.clock() as int);
                st <= h && (h - st) % 4 == 0 && (h - st) / 4 < 256 ==> #[trigger] bds[j] == bytes[(h - st) / 4]
            },
    ensures
        ({
            let s = r.clock() as int;
            let done = dma_done(s, 256);
            let k = (done + 2 - s) as nat;
            let (rk, ws, low) = run_steps(r, frames, apus, bss, bds, k);
            &&& !rk.sprite_dma_pending()
            &&& ws == Seq::new(256, |i: int| (0x2004u16, bytes[i]))
            &&& low + 1 == done - s + 1 == 1024 + (dma_start(s) - s)
            &&& s % 4 == 1 ==> done - s + 1 == 1027
            &&& s % 4 == 3 ==> done - s + 1 == 1029
        }),
{
    let s = r.clock() as int;
    let done = dma_done(s, 256);
    let k = (done + 2 - s) as nat;
    assert(k <= 1100);
    law_sprite_dma_moves_the_page(r, frames, apus, bss, bds, page, bytes, k);
    assert(writes_by(s, 256, done + 2) == 256);
}

impl Rung {
    /// A DMC fetch of `addr` requested for frame `q`, as it stands after
    /// frame `h`: its read on the first get frame three on, once
    /// reached, and done the frame after.
    pub closed spec fn fetch_state_at(addr: u16, q: u64, h: int) -> DmcFetch {
        let rd = dma_start(q as int);
        DmcFetch {
            addr,
            request: q,
            read: if h >= rd { Some(rd as u64) } else { None },
            done: if h >= rd + 1 { Some((rd + 1) as u64) } else { None },
        }
    }

    /// The rung stands in a standalone DMC stall reading `addr`,
    /// requested for frame `q` (no sprite DMA in flight), from the frame
    /// before the request to the frame after the read's pair.
    pub closed spec fn in_dmc_stall(self, addr: u16, q: u64) -> bool {
        &&& self.dma is None
        &&& self.fetch == Some(Rung::fetch_state_at(addr, q, self.h as int))
        &&& q <= self.h + 1
        &&& self.h <= dma_start(q as int) + 2
    }
}

/// Every frame of a standalone DMC stall, with no further fetch and no
/// sprite DMA strobed by the held core: the frames from the request
/// through the read's pair show RDY low; the read lands on the first
/// get frame (h = 0 mod 4) three frames after the request, reading
/// `addr` from the bus on it and the frame after and showing the byte;
/// the core is fed RDY low the frame before the request and high two
/// frames after the read's pair, when the stall ends.
#[verifier::spinoff_prover]
#[verifier::rlimit(60)]
pub proof fn law_dmc_stall_frame(r: Rung, core_frame: PinFrame, a: Apu, bs: u8, bd: u8, addr: u16, q: u64)
    requires
        r.clock() + 1 < RUNG_LIMIT,
        r.in_dmc_stall(addr, q),
        a.dmc_last_fetch() is None,
        !(core_frame.ab == 0x4014 && !core_frame.rw && !core_frame.clk0),
    ensures
        ({
            let h = r.clock() + 1;
            let rd = dma_start(q as int);
            let (r2, rdy, write) = r.finished(core_frame, a, bs, bd);
            let f = r2.presented();
            &&& r2.clock() == h
            &&& h <= rd + 2 ==> r2.in_dmc_stall(addr, q)
            &&& h == rd + 3 ==> !r2.holds_bus()
            &&& f.rdy == !(q <= h <= rd + 1)
            &&& (h == rd || h == rd + 1) ==> f.ab == addr && f.rw && f.db == bs
            &&& rdy == (if h + 1 == q {
                seq![false]
            } else if h == rd + 3 {
                seq![true]
            } else {
                Seq::<bool>::empty()
            })
            &&& write is None
            &&& r.finished_reads(core_frame, a, bs, bd) == (if h == rd || h == rd + 1 {
                seq![(addr, bs)]
            } else {
                Seq::<(u16, u8)>::empty()
            })
        }),
{
    reveal(Rung::finished);
    reveal(Rung::finished_reads);
    reveal(Rung::forwarded);
    reveal(Rung::fetch_requested);
    reveal(Rung::fetch_stalled);
    reveal(Rung::stall_reads);
    reveal(Rung::dma_ran);
    reveal(Rung::dma_reads);
}

/// A standalone DMC stall run from any of its frames (the eve of the
/// request on) to its end under the same conditions: every frame shown
/// from then through the read's pair has RDY low; run from the eve of
/// the request, those are the `dma_start(q) + 2 - q` from the request
/// through the read's pair, five when the request falls on h = 1
/// (mod 4) and seven on h = 3; the chip writes nothing; and the stall
/// is over.
pub proof fn law_dmc_stall_length(r: Rung, frames: Seq<PinFrame>, apus: Seq<Apu>, bss: Seq<u8>, bds: Seq<u8>, addr: u16, q: u64, k: nat)
    requires
        r.in_dmc_stall(addr, q),
        r.clock() + k + 1 < RUNG_LIMIT,
        r.clock() + k <= dma_start(q as int) + 3,
        frames.len() >= k,
        apus.len() >= k,
        bss.len() >= k,
        bds.len() >= k,
        forall|j: int| 0 <= j < k ==> (#[trigger] apus[j]).dmc_last_fetch() is None,
        forall|j: int| 0 <= j < k ==> !((#[trigger] frames[j]).ab == 0x4014 && !frames[j].rw && !frames[j].clk0),
    ensures
        ({
            let rd = dma_start(q as int);
            let h = r.clock() + k;
            let (rk, ws, low) = run_steps(r, frames, apus, bss, bds, k);
            &&& rk.clock() == h
            &&& h <= rd + 2 ==> rk.in_dmc_stall(addr, q)
            &&& h == rd + 3 ==> !rk.holds_bus()
            &&& ws == Seq::<(u16, u8)>::empty()
            &&& low == (if r.clock() > rd + 1 {
                0
            } else if h <= rd + 1 {
                h - r.clock()
            } else {
                rd + 1 - r.clock()
            })
            &&& r.clock() + 1 == q && h == rd + 3 ==> {
                &&& q % 4 == 1 ==> low == 5
                &&& q % 4 == 3 ==> low == 7
            }
        }),
    decreases k,
{
    if k > 0 {
        let km = (k - 1) as nat;
        law_dmc_stall_length(r, frames, apus, bss, bds, addr, q, km);
        let (rp, ws, low) = run_steps(r, frames, apus, bss, bds, km);
        let j = km as int;
        assert(apus[j].dmc_last_fetch() is None);
        assert(!(frames[j].ab == 0x4014 && !frames[j].rw && !frames[j].clk0));
        law_dmc_stall_frame(rp, frames[j], apus[j], bss[j], bds[j], addr, q);
    }
}

/// A `$4014` write, phi1 then phi2, from a chip with neither DMA unit
/// busy and no DMC fetch in the two half-steps, starts a sprite DMA of
/// the page the phi2 frame carries, strobed on that frame: the rung then
/// stands in it (the premise of `law_sprite_dma_moves_the_page`), and
/// the first half-step feeds the core RDY low.
pub proof fn law_4014_write_starts_sprite_dma(
    r: Rung,
    f1: PinFrame,
    a1: Apu,
    bs1: u8,
    bd1: u8,
    f2: PinFrame,
    a2: Apu,
    bs2: u8,
    bd2: u8,
    bytes: Seq<u8>,
)
    requires
        r.clock() + 3 < RUNG_LIMIT,
        !r.holds_bus(),
        a1.dmc_last_fetch() is None,
        a2.dmc_last_fetch() is None,
        f1.ab == 0x4014 && !f1.rw && !f1.clk0,
        f2.ab == 0x4014 && !f2.rw && f2.clk0,
    ensures
        ({
            let r1 = step_of(r, f1, a1, bs1, bd1);
            let r2 = step_of(r1, f2, a2, bs2, bd2);
            &&& r.finished(f1, a1, bs1, bd1).1 == seq![false]
            &&& r2.clock() == r.clock() + 2
            &&& r2.pairs() == r.pairs()
            &&& r2.in_sprite_dma(f2.db, (r.clock() + 2) as u64, bytes)
        }),
{
    reveal(Rung::finished);
    reveal(Rung::forwarded);
    reveal(Rung::fetch_requested);
    reveal(Rung::fetch_stalled);
    reveal(Rung::dma_ran);
    let r1 = step_of(r, f1, a1, bs1, bd1);
    let r2 = step_of(r1, f2, a2, bs2, bd2);
    assert(r2.dma == Some(Rung::dma_state_at(f2.db, (r.h + 2) as u64, r.dma_pairs as int, bytes, r2.h as int)));
}

/// The half-step whose APU fetches a sample byte of `addr` (for the
/// enable write, `enable`), from a chip with neither DMA unit busy and
/// no `$4014` strobe from the core: a standalone stall starts, its
/// request on the next frame for the enable's fetch and on this one
/// otherwise (the premise of `law_dmc_stall_length`).
pub proof fn law_dmc_fetch_starts_stall(r: Rung, core_frame: PinFrame, a: Apu, bs: u8, bd: u8, addr: u16, enable: bool)
    requires
        r.clock() + 2 < RUNG_LIMIT,
        !r.holds_bus(),
        a.dmc_last_fetch() == Some((addr, enable)),
        !(core_frame.ab == 0x4014 && !core_frame.rw && !core_frame.clk0),
    ensures
        ({
            let r1 = step_of(r, core_frame, a, bs, bd);
            let q = (r.clock() + 1 + if enable { 1int } else { 0int }) as u64;
            &&& r1.clock() == r.clock() + 1
            &&& r1.in_dmc_stall(addr, q)
        }),
{
    reveal(Rung::finished);
    reveal(Rung::forwarded);
    reveal(Rung::fetch_requested);
    reveal(Rung::fetch_stalled);
    reveal(Rung::dma_ran);
}

impl Rung {
    /// A DMC fetch falls due inside a running sprite DMA of `page` whose
    /// pairs started at `s`: the fetch of `addr` is requested and unread,
    /// and the next frame is a get frame, at least three after the
    /// request, on which the DMA still has a pair to move; the collision
    /// pause is on.
    pub closed spec fn fetch_due_in_dma(self, page: u8, s: u64, addr: u16) -> bool {
        let h = self.h + 1;
        &&& self.collision_pause
        &&& self.dma matches Some(d) && {
            &&& d.page == page
            &&& d.start == Some(s)
            &&& d.done is None
            &&& d.collision is None
            &&& d.strobe <= h
        }
        &&& self.fetch matches Some(fe) && {
            &&& fe.addr == addr
            &&& fe.read is None
            &&& h >= fe.request + 3
        }
        &&& h >= s
        &&& is_get_frame(h)
        &&& is_get_frame(s as int)
        &&& (h - s) / 4 < self.dma_pairs
    }
}

/// One half-step of the chip.
pub open spec fn step_of(r: Rung, core_frame: PinFrame, a: Apu, bs: u8, bd: u8) -> Rung {
    r.finished(core_frame, a, bs, bd).0
}

/// A DMC fetch due inside a sprite DMA, with no further fetch and no
/// `$4014` write from the held core: the sample read takes the get
/// frame the DMA was about to use and the one after, reading `addr`
/// from the bus on each and showing it; the core's held cycle shows for
/// the next two frames; and on the frame after those the pairs resume
/// with the pair that was due, reading `(page << 8) | pair`. RDY shows
/// low throughout, and the chip writes nothing in the four frames.
#[verifier::spinoff_prover]
#[verifier::rlimit(80)]
pub proof fn law_dmc_fetch_inside_sprite_dma(
    r: Rung,
    frames: Seq<PinFrame>,
    apus: Seq<Apu>,
    bss: Seq<u8>,
    bds: Seq<u8>,
    page: u8,
    s: u64,
    addr: u16,
)
    requires
        r.clock() + 6 < RUNG_LIMIT,
        r.fetch_due_in_dma(page, s, addr),
        frames.len() >= 5,
        apus.len() >= 5,
        bss.len() >= 5,
        bds.len() >= 5,
        forall|j: int| 0 <= j < 5 ==> (#[trigger] apus[j]).dmc_last_fetch() is None,
        forall|j: int| 0 <= j < 5 ==> !((#[trigger] frames[j]).ab == 0x4014 && !frames[j].rw && frames[j].clk0),
    ensures
        ({
            let h = r.clock() + 1;
            let pair = (h - s) / 4;
            let r1 = step_of(r, frames[0], apus[0], bss[0], bds[0]);
            let r2 = step_of(r1, frames[1], apus[1], bss[1], bds[1]);
            let r3 = step_of(r2, frames[2], apus[2], bss[2], bds[2]);
            let r4 = step_of(r3, frames[3], apus[3], bss[3], bds[3]);
            let r5 = step_of(r4, frames[4], apus[4], bss[4], bds[4]);
            &&& r1.presented().ab == addr && r1.presented().rw && r1.presented().db == bds[0] && !r1.presented().rdy
            &&& r2.presented().ab == addr && r2.presented().rw && r2.presented().db == bds[1] && !r2.presented().rdy
            &&& r3.presented().ab == frames[2].ab && r3.presented().rw == frames[2].rw && !r3.presented().rdy
            &&& r4.presented().ab == frames[3].ab && r4.presented().rw == frames[3].rw && !r4.presented().rdy
            &&& r.finished_reads(frames[0], apus[0], bss[0], bds[0]) == seq![(addr, bds[0])]
            &&& r1.finished_reads(frames[1], apus[1], bss[1], bds[1]) == seq![(addr, bds[1])]
            &&& r2.finished_reads(frames[2], apus[2], bss[2], bds[2]) == Seq::<(u16, u8)>::empty()
            &&& r3.finished_reads(frames[3], apus[3], bss[3], bds[3]) == Seq::<(u16, u8)>::empty()
            &&& r.finished(frames[0], apus[0], bss[0], bds[0]).2 is None
            &&& r1.finished(frames[1], apus[1], bss[1], bds[1]).2 is None
            &&& r2.finished(frames[2], apus[2], bss[2], bds[2]).2 is None
            &&& r3.finished(frames[3], apus[3], bss[3], bds[3]).2 is None
            &&& r4.finished_reads(frames[4], apus[4], bss[4], bds[4]) == seq![
                ((((page as u16) << 8u16) | (pair as u16)) as u16, bds[4]),
            ]
            &&& r5.presented().ab == (((page as u16) << 8u16) | (pair as u16)) as u16
            &&& r5.presented().rw && r5.presented().db == bds[4] && !r5.presented().rdy
            &&& r5.clock() == h + 4
        }),
{
    let h = (r.h + 1) as u64;
    let d = r.dma.unwrap();
    assert(apus[0].dmc_last_fetch() is None);
    assert(apus[1].dmc_last_fetch() is None);
    assert(apus[2].dmc_last_fetch() is None);
    assert(apus[3].dmc_last_fetch() is None);
    assert(apus[4].dmc_last_fetch() is None);
    assert(!(frames[0].ab == 0x4014 && !frames[0].rw && frames[0].clk0));
    assert(!(frames[1].ab == 0x4014 && !frames[1].rw && frames[1].clk0));
    assert(!(frames[2].ab == 0x4014 && !frames[2].rw && frames[2].clk0));
    assert(!(frames[3].ab == 0x4014 && !frames[3].rw && frames[3].clk0));
    assert(!(frames[4].ab == 0x4014 && !frames[4].rw && frames[4].clk0));
    lemma_collision_frame(r, frames[0], apus[0], bss[0], bds[0], page, s, addr);
    let r1 = step_of(r, frames[0], apus[0], bss[0], bds[0]);
    lemma_collision_held(r1, frames[1], apus[1], bss[1], bds[1]);
    let r2 = step_of(r1, frames[1], apus[1], bss[1], bds[1]);
    lemma_collision_held(r2, frames[2], apus[2], bss[2], bds[2]);
    let r3 = step_of(r2, frames[2], apus[2], bss[2], bds[2]);
    lemma_collision_held(r3, frames[3], apus[3], bss[3], bds[3]);
    let r4 = step_of(r3, frames[3], apus[3], bss[3], bds[3]);
    lemma_collision_resumed(r4, frames[4], apus[4], bss[4], bds[4]);
}

/// The frame a due fetch collides on.
#[verifier::spinoff_prover]
#[verifier::rlimit(60)]
proof fn lemma_collision_frame(r: Rung, cf: PinFrame, a: Apu, bs: u8, bd: u8, page: u8, s: u64, addr: u16)
    requires
        r.h + 1 < RUNG_LIMIT,
        r.fetch_due_in_dma(page, s, addr),
        a.dmc_last_fetch() is None,
        !(cf.ab == 0x4014 && !cf.rw && cf.clk0),
    ensures
        ({
            let h = (r.h + 1) as u64;
            let (r1, rdy, w) = r.finished(cf, a, bs, bd);
            &&& r1.dma == Some(SpriteDma { collision: Some((h, addr)), start: Some((s + 4) as u64), ..r.dma.unwrap() })
            &&& r1.fetch is None
            &&& r1.h == h
            &&& r1.dma_pairs == r.dma_pairs
            &&& r1.presented().ab == addr && r1.presented().rw && r1.presented().db == bd && !r1.presented().rdy
            &&& w is None
            &&& r.finished_reads(cf, a, bs, bd) == seq![(addr, bd)]
        }),
{
    reveal(Rung::finished);
    reveal(Rung::finished_reads);
    reveal(Rung::forwarded);
    reveal(Rung::fetch_requested);
    reveal(Rung::fetch_stalled);
    reveal(Rung::stall_reads);
    reveal(Rung::dma_ran);
    reveal(Rung::dma_reads);
}

/// A frame inside a collision's four: the sample read's two, then the
/// core's held cycle's two; the pairs resume on the frame after.
#[verifier::spinoff_prover]
#[verifier::rlimit(60)]
proof fn lemma_collision_held(r: Rung, cf: PinFrame, a: Apu, bs: u8, bd: u8)
    requires
        r.h + 1 < RUNG_LIMIT,
        r.fetch is None,
        r.dma matches Some(d) && d.done is None && d.strobe <= r.h + 1 && d.start is Some && (d.collision matches Some(
            c) && c.0 < r.h + 1 < c.0 + 4),
        a.dmc_last_fetch() is None,
        !(cf.ab == 0x4014 && !cf.rw && cf.clk0),
    ensures
        ({
            let h = r.h + 1;
            let d = r.dma.unwrap();
            let c = d.collision.unwrap();
            let (r1, rdy, w) = r.finished(cf, a, bs, bd);
            &&& r1.dma == r.dma
            &&& r1.fetch is None
            &&& r1.h == h
            &&& r1.dma_pairs == r.dma_pairs
            &&& !r1.presented().rdy
            &&& h < c.0 + 2 ==> r1.presented().ab == c.1 && r1.presented().rw && r1.presented().db == bd
                && r.finished_reads(cf, a, bs, bd) == seq![(c.1, bd)]
            &&& h >= c.0 + 2 ==> r1.presented().ab == cf.ab && r1.presented().rw == cf.rw
                && r.finished_reads(cf, a, bs, bd) == Seq::<(u16, u8)>::empty()
            &&& w is None
        }),
{
    reveal(Rung::finished);
    reveal(Rung::finished_reads);
    reveal(Rung::forwarded);
    reveal(Rung::fetch_requested);
    reveal(Rung::fetch_stalled);
    reveal(Rung::stall_reads);
    reveal(Rung::dma_ran);
    reveal(Rung::dma_reads);
}

/// The frame after a collision's four: the pairs resume.
#[verifier::spinoff_prover]
#[verifier::rlimit(60)]
proof fn lemma_collision_resumed(r: Rung, cf: PinFrame, a: Apu, bs: u8, bd: u8)
    requires
        r.h + 1 < RUNG_LIMIT,
        r.fetch is None,
        r.dma matches Some(d) && d.done is None && d.strobe <= r.h + 1 && (d.collision matches Some(c) && r.h + 1
            == c.0 + 4) && (d.start matches Some(st) && st <= r.h + 1 && (r.h + 1 - st) % 4 == 0 && (r.h + 1 - st)
            / 4 < r.dma_pairs),
        a.dmc_last_fetch() is None,
        !(cf.ab == 0x4014 && !cf.rw && cf.clk0),
    ensures
        ({
            let d = r.dma.unwrap();
            let pair = (r.h + 1 - d.start.unwrap()) / 4;
            let (r1, rdy, w) = r.finished(cf, a, bs, bd);
            let src = (((d.page as u16) << 8u16) | (pair as u16)) as u16;
            &&& r1.h == r.h + 1
            &&& r1.presented().ab == src && r1.presented().rw && r1.presented().db == bd && !r1.presented().rdy
            &&& r.finished_reads(cf, a, bs, bd) == seq![(src, bd)]
        }),
{
    reveal(Rung::finished);
    reveal(Rung::finished_reads);
    reveal(Rung::forwarded);
    reveal(Rung::fetch_requested);
    reveal(Rung::fetch_stalled);
    reveal(Rung::stall_reads);
    reveal(Rung::dma_ran);
    reveal(Rung::dma_reads);
}

/// The core's APU register writes reach the APU: a phi2 write (R/W low,
/// clk0 high) to `$4000..=$4017` other than `$4014` presents the APU with
/// that register (`address % 32`) and byte, `$4017` included; a frame
/// that is no such write, or is the `$4014` strobe, leaves the APU as it
/// was.
pub proof fn law_register_writes_reach_the_apu(r: Rung, core_frame: PinFrame)
    requires
        r.clock() + 1 < RUNG_LIMIT,
    ensures
        (!core_frame.rw && core_frame.clk0 && 0x4000 <= core_frame.ab <= 0x4017 && core_frame.ab != 0x4014)
            ==> r.apu_fed(core_frame) == r.chip_apu().presented((core_frame.ab % 32) as u8, core_frame.db),
        !(!core_frame.rw && core_frame.clk0 && 0x4000 <= core_frame.ab <= 0x4017 && core_frame.ab != 0x4014)
            ==> r.apu_fed(core_frame) == r.chip_apu(),
{
    reveal(Rung::forwarded);
}

/// The two frames agree on everything the chip does not drive: the
/// count, the clock phase, SYNC, RES, IRQ, NMI and SO.
pub open spec fn same_lines(f: PinFrame, g: PinFrame) -> bool {
    &&& f.h == g.h
    &&& f.clk0 == g.clk0
    &&& f.sync == g.sync
    &&& f.res == g.res
    &&& f.irq == g.irq
    &&& f.nmi == g.nmi
    &&& f.so == g.so
}

proof fn lemma_forwarded_lines(r: Rung, core_frame: PinFrame)
    requires
        r.h < RUNG_LIMIT,
    ensures
        r.forwarded(core_frame).1 == (PinFrame { h: (r.h + 1) as u64, ..core_frame }),
        r.forwarded(core_frame).0.h == r.h + 1,
{
    reveal(Rung::forwarded);
}

proof fn lemma_requested_keeps(r: Rung)
    ensures
        r.fetch_requested().h == r.h,
        r.fetch_requested().dma == r.dma,
{
    reveal(Rung::fetch_requested);
}

proof fn lemma_stalled_lines(w: Work, b: u8)
    ensures
        same_lines(Rung::fetch_stalled(w, b).1, w.1),
        Rung::fetch_stalled(w, b).0.h == w.0.h,
        Rung::fetch_stalled(w, b).0.dma == w.0.dma,
        w.0.dma is Some ==> Rung::fetch_stalled(w, b) == w,
{
    reveal(Rung::fetch_stalled);
}

proof fn lemma_dma_lines(w: Work, b: u8)
    ensures
        same_lines(Rung::dma_ran(w, b).0.1, w.1),
        w.0.dma_running() ==> !Rung::dma_ran(w, b).0.1.rdy,
{
    reveal(Rung::dma_ran);
    match w.0.dma {
        Some(d0) => {
            if d0.done is None {
                let (r2, d2, f1) = Rung::dma_scheduled(w.0, d0, w.1);
                assert(same_lines(f1, w.1));
                assert(same_lines(Rung::dma_moved(r2, d2, f1, b).1, f1));
            }
        },
        None => {},
    }
}

proof fn lemma_finished_parts(r: Rung, core_frame: PinFrame, a: Apu, bs: u8, bd: u8)
    requires
        r.h < RUNG_LIMIT,
    ensures
        ({
            let (r0, f0, rdy0) = r.forwarded(core_frame);
            let r1 = Rung { apu: a, ..r0 }.fetch_requested();
            let w2 = Rung::fetch_stalled((r1, f0, rdy0), bs);
            &&& same_lines(r.finished(core_frame, a, bs, bd).0.presented(), f0)
            &&& r0.dma_running() ==> w2.0.dma_running()
            &&& r.finished(core_frame, a, bs, bd).0.presented() == Rung::dma_ran(w2, bd).0.1
        }),
{
    reveal(Rung::finished);
    let (r0, f0, rdy0) = r.forwarded(core_frame);
    let r1 = Rung { apu: a, ..r0 }.fetch_requested();
    lemma_requested_keeps(Rung { apu: a, ..r0 });
    let w2 = Rung::fetch_stalled((r1, f0, rdy0), bs);
    lemma_stalled_lines((r1, f0, rdy0), bs);
    lemma_dma_lines(w2, bd);
}

/// The chip rewrites only the address, the data, R/W and RDY of its
/// core's frame: the clock phase, SYNC, RES, IRQ, NMI and SO pass
/// through, and the frame carries the chip's own count.
pub proof fn law_chip_keeps_the_core_lines(r: Rung, core_frame: PinFrame, a: Apu, bs: u8, bd: u8)
    requires
        r.wf(),
    ensures
        same_lines(r.finished(core_frame, a, bs, bd).0.presented(), PinFrame { h: (r.clock() + 1) as u64, ..core_frame }),
{
    lemma_forwarded_lines(r, core_frame);
    lemma_finished_parts(r, core_frame, a, bs, bd);
}

/// The only write the chip performs on its own is the sprite DMA's put,
/// to `$2004`.
pub proof fn law_dma_writes_only_to_2004(r: Rung, core_frame: PinFrame, a: Apu, bs: u8, bd: u8)
    ensures
        r.finished(core_frame, a, bs, bd).2 matches Some(w) ==> w.0 == 0x2004,
{
    reveal(Rung::finished);
    reveal(Rung::forwarded);
    reveal(Rung::fetch_stalled);
    reveal(Rung::dma_ran);
}

/// While the sprite DMA runs (from its strobe's frame to its last pair)
/// the chip's frame shows RDY low.
pub proof fn law_dma_frames_show_rdy_low(r: Rung, core_frame: PinFrame, a: Apu, bs: u8, bd: u8)
    requires
        r.wf(),
        r.forwarded(core_frame).0.dma_running(),
    ensures
        !r.finished(core_frame, a, bs, bd).0.presented().rdy,
{
    lemma_finished_parts(r, core_frame, a, bs, bd);
    let (r0, f0, rdy0) = r.forwarded(core_frame);
    let r1 = Rung { apu: a, ..r0 }.fetch_requested();
    let w2 = Rung::fetch_stalled((r1, f0, rdy0), bs);
    lemma_dma_lines(w2, bd);
}

} // verus!
