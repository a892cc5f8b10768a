use v2a03::apu::SampleImage;
use v2a03::lockstep::PinFrame;
use v2a03::rung::Rung;
use v2a03::fit::FRAME_WRITE_SHORT_PHASE;
use v2a03::tables::{LfsrTimer, Tables};

fn timer(terminal: u32) -> LfsrTimer {
    LfsrTimer { at_h0: 1, taps: (30, 31), terminal, reload: [1; 16] }
}

fn tables() -> Tables {
    Tables {
        length: [0; 32],
        noise_period: [0; 16],
        dmc_rate: [0; 16],
        duty: [0x40, 0x60, 0x78, 0x9f],
        frame_4: vec![(14917, 0), (29829, 1), (44745, 2), (59661, 3)],
        frame_4_period: 59660,
        frame_5: vec![(14917, 0), (29829, 1), (44745, 2), (74565, 4)],
        frame_5_period: 74564,
        frame_power_on: 14899,
        frame_jitter: 2,
        mode1_clock: 3,
        noise_timer: timer(0x400),
        dmc_timer: timer(0x100),
        write_short_phase: FRAME_WRITE_SHORT_PHASE,
    }
}

fn core_frame(ab: u16, db: u8, rw: bool, clk0: bool) -> PinFrame {
    PinFrame { h: 0, clk0, ab, db, rw, sync: false, res: true, irq: true, nmi: true, rdy: true, so: false }
}

fn memory() -> SampleImage {
    let mut m = vec![0u8; 0x10000];
    for i in 0..256usize {
        m[0x0200 + i] = (i as u8) ^ 0x5a;
    }
    SampleImage::new(m)
}

/// Runs a `$4014` write whose phi1 lands on half-step `at` (1-based, the
/// rung's h after the step), then the core holding a read: the writes
/// the DMA performs, the half-steps its frames show RDY low, and the
/// half-step on which the core is fed RDY high again.
fn sprite_dma(at: u64) -> (Vec<(u16, u8)>, usize, u64) {
    let mut r = Rung::new(tables(), core_frame(0x8000, 0, true, false));
    let mut mem = memory();
    let mut writes = Vec::new();
    let mut low = 0;
    let mut released = 0;
    let mut clk0 = false;
    for _ in 0..3000 {
        let h = r.h() + 1;
        let f = if h == at {
            core_frame(0x4014, 0x00, false, false)
        } else if h == at + 1 {
            core_frame(0x4014, 0x02, false, true)
        } else {
            core_frame(0x8003, 0xea, true, clk0)
        };
        clk0 = !clk0;
        let act = r.half_step(f, &mut mem);
        if let Some(w) = act.write {
            mem.bytes[w.0 as usize] = w.1;
            writes.push(w);
        }
        if h > at && act.rdy.last() == Some(&true) && released == 0 {
            released = h;
        }
        if !r.pins().rdy {
            low += 1;
        }
        assert_eq!(r.pins().h, h);
    }
    (writes, low, released)
}

/// The sprite DMA copies the page to `$2004`, 256 pairs, in order.
#[test]
fn the_sprite_dma_copies_the_page_to_2004() {
    for at in [8u64, 9, 10, 11] {
        let (writes, _, _) = sprite_dma(at);
        assert_eq!(writes.len(), 256, "write at {at}");
        for (i, w) in writes.iter().enumerate() {
            assert_eq!(*w, (0x2004, (i as u8) ^ 0x5a));
        }
    }
}

/// RDY shows low for 1,027 or 1,029 half-steps by the write's alignment
/// in the four-frame grain, as measured on the die; the core is fed RDY
/// high again two frames after the frames show it.
#[test]
fn the_sprite_dma_stalls_by_its_alignment() {
    for (at, want) in [(8u64, 1027usize), (10, 1029), (12, 1027), (14, 1029)] {
        let (_, low, released) = sprite_dma(at);
        assert_eq!(low, want, "write at {at}");
        assert!(released > at + 1027);
    }
}

/// While a DMA unit holds the bus the core is fed RDY low.
#[test]
fn the_core_is_held_while_a_dma_runs() {
    let mut r = Rung::new(tables(), core_frame(0x8000, 0, true, false));
    let mut mem = memory();
    assert_eq!(r.set_inputs(true, true, true, true, true), (true, true, true, true, false));
    r.half_step(core_frame(0x4014, 0x00, false, false), &mut mem);
    assert_eq!(r.set_inputs(true, false, true, true, false), (true, false, true, false, false));
}

/// Enabling the DMC with an empty buffer stalls the core for its fetch:
/// RDY falls, the sample byte is read on the first get frame (h = 0
/// mod 4) at least three frames on, and RDY returns two frames after
/// that read begins: seven frames low for a request on h = 3 (mod 4),
/// five for one on h = 1.
#[test]
fn a_dmc_fetch_stalls_the_core_briefly() {
    for (lead, want) in [(0usize, 7usize), (2, 5)] {
        let mut r = Rung::new(tables(), core_frame(0x8000, 0, true, false));
        let mut mem = memory();
        mem.bytes[0xc000] = 0x77;
        let mut clk0 = false;
        for _ in 0..lead {
            r.half_step(core_frame(0x8003, 0xea, true, clk0), &mut mem);
            clk0 = !clk0;
        }
        let prog = [(0x4012u16, 0x00u8), (0x4013, 0x00), (0x4015, 0x10)];
        for (a, v) in prog {
            for phase in [false, true] {
                let f = core_frame(a, v, false, phase);
                r.half_step(f, &mut mem);
            }
        }
        let mut first_low = None;
        let mut read_at = None;
        let mut low_frames = Vec::new();
        for _ in 0..40 {
            r.half_step(core_frame(0x8003, 0xea, true, clk0), &mut mem);
            clk0 = !clk0;
            let p = r.pins();
            if !p.rdy {
                low_frames.push(p.h);
                if first_low.is_none() {
                    first_low = Some(p.h);
                }
            }
            if p.ab == 0xc000 && p.rw && p.db == 0x77 && read_at.is_none() {
                read_at = Some(p.h);
            }
        }
        let request = first_low.expect("RDY never fell");
        let read = read_at.expect("the sample byte was never read at the pins");
        assert_eq!(read % 4, 0, "the read lands on a get frame");
        assert!(read >= request + 3 && read < request + 7, "request {request}, read {read}");
        let want_frames: Vec<u64> = (request..read + 2).collect();
        assert_eq!(low_frames, want_frames);
        assert_eq!(low_frames.len(), want, "lead {lead}");
    }
}

#[test]
fn a_rung_power_cycle_returns_to_h0() {
    let mut r = Rung::new(tables(), core_frame(0x8000, 0, true, false));
    let mut mem = memory();
    r.half_step(core_frame(0x4014, 0x00, false, false), &mut mem);
    r.power_cycle(core_frame(0x8000, 0, true, false));
    assert_eq!(r.h(), 0);
    assert_eq!(r.set_inputs(true, true, true, true, false).3, true);
    assert_eq!(r.pins(), core_frame(0x8000, 0, true, false));
}

/// `$4015` is answered inside the chip with the APU's status as it
/// stands after the read frame's half-step; other addresses are the
/// world's.
#[test]
fn the_chip_answers_4015_itself() {
    let mut r = Rung::new(tables(), core_frame(0x8000, 0, true, false));
    let mut mem = memory();
    for (a, v) in [(0x4015u16, 0x01u8), (0x4003, 0x08)] {
        for phase in [false, true] {
            r.half_step(core_frame(a, v, false, phase), &mut mem);
        }
    }
    r.half_step(core_frame(0x4015, 0x00, true, true), &mut mem);
    assert_eq!(r.read_late(0x4015), Some(0x01));
    assert_eq!(r.read_late(0x2002), None);
    assert_eq!(r.read_late(0x0000), None);
}

/// DMC fetches falling inside a sprite DMA: each takes the get frame the
/// DMA was about to use and the one after for its sample read, the
/// core's held cycle shows for the next two, and the pairs resume with
/// the pair that was due; the page still reaches `$2004` whole and in
/// order, and RDY stays low throughout, four frames longer per fetch.
#[test]
fn a_dmc_fetch_inside_the_sprite_dma_pauses_it() {
    let mut r = Rung::new(tables(), core_frame(0x8000, 0, true, false));
    let mut mem = memory();
    for i in 0..17usize {
        mem.bytes[0xc000 + i] = 0x80 | i as u8;
    }
    let prog = [(0x4012u16, 0x00u8), (0x4013, 0x01), (0x4015, 0x10)];
    for (a, v) in prog {
        for phase in [false, true] {
            r.half_step(core_frame(a, v, false, phase), &mut mem);
        }
    }
    let mut clk0 = false;
    for _ in 0..30 {
        r.half_step(core_frame(0x8003, 0xea, true, clk0), &mut mem);
        clk0 = !clk0;
    }
    while r.h() % 4 != 3 {
        r.half_step(core_frame(0x8003, 0xea, true, clk0), &mut mem);
        clk0 = !clk0;
    }
    // The $4014 write: phi1 then phi2.
    r.half_step(core_frame(0x4014, 0x00, false, false), &mut mem);
    r.half_step(core_frame(0x4014, 0x02, false, true), &mut mem);
    let mut frames = Vec::new();
    let mut writes = Vec::new();
    let mut last_write = 0;
    for k in 0..1400 {
        let act = r.half_step(core_frame(0x8003, 0xea, true, clk0), &mut mem);
        clk0 = !clk0;
        if let Some(w) = act.write {
            writes.push(w);
            last_write = k;
        }
        frames.push(r.pins());
    }
    assert_eq!(writes.len(), 256);
    for (i, w) in writes.iter().enumerate() {
        assert_eq!(*w, (0x2004, (i as u8) ^ 0x5a));
    }
    assert!((0..=last_write).all(|i| !frames[i].rdy), "RDY low through the last write");
    assert!(frames[last_write + 1].rdy);
    let mut collisions = 0;
    let mut i = 0;
    while i <= last_write {
        let f = frames[i];
        if f.rw && f.ab >= 0xc000 {
            assert_eq!(frames[i + 1].ab, f.ab);
            assert_eq!(f.h % 4, 0, "the sample read takes a get frame");
            assert_eq!(frames[i + 2].ab, 0x8003);
            assert_eq!(frames[i + 3].ab, 0x8003);
            assert_eq!(frames[i + 4].ab >> 8, 0x02, "the pairs resume");
            collisions += 1;
            i += 4;
        } else {
            i += 1;
        }
    }
    assert!(collisions >= 1);
    assert_eq!(last_write + 2, 1027 + 4 * collisions, "the strobe's frame through the last write");
}
