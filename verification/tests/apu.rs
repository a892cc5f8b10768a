use v2a03::apu::{frame_pos_at_h0, Apu, SampleImage};
use v2a03::fit::FRAME_WRITE_SHORT_PHASE;
use v2a03::tables::{LfsrTimer, Tables};

/// The length table as the die holds it (every entry the published
/// value minus one).
const LENGTH: [u8; 32] = [
    9, 253, 19, 1, 39, 3, 79, 5, 159, 7, 59, 9, 13, 11, 25, 13, 11, 15, 23, 17, 47, 19, 95, 21, 191, 23, 71, 25, 15, 27, 31,
    29,
];

/// Bit c set where the square is high on sequencer step c.
const DUTY: [u8; 4] = [0x40, 0x60, 0x78, 0x9f];

/// A timer shape whose feedback taps stay clear, so it counts by
/// doubling from 1 up to its terminal and reloads 1: the unit clocks
/// once every `log2(terminal) + 1` ticks.
fn timer(terminal: u32) -> LfsrTimer {
    LfsrTimer { at_h0: 1, taps: (30, 31), terminal, reload: [1; 16] }
}

fn tables() -> Tables {
    Tables {
        length: LENGTH,
        noise_period: [0; 16],
        dmc_rate: [0; 16],
        duty: DUTY,
        frame_4: vec![(14917, 0), (29829, 1), (44745, 2), (59661, 3)],
        frame_4_period: 59660,
        frame_5: vec![(14917, 0), (29829, 1), (44745, 2), (74565, 4)],
        frame_5_period: 74564,
        frame_power_on: 14899,
        frame_jitter: 2,
        mode1_clock: 3,
        noise_timer: timer(0x400),
        dmc_timer: timer(0x100),
        write_short_phase: FRAME_WRITE_SHORT_PHASE,
    }
}

fn flat() -> SampleImage {
    let mut m = vec![0u8; 0x10000];
    for (i, b) in m.iter_mut().enumerate().skip(0xc000).take(64) {
        *b = (i as u8).wrapping_mul(0x5b) ^ 0xa5;
    }
    SampleImage::new(m)
}

/// One write presented and its half-step run.
fn write(apu: &mut Apu, mem: &mut SampleImage, reg: u8, v: u8) {
    apu.write(reg, v);
    apu.half_step(mem);
}

fn run(apu: &mut Apu, mem: &mut SampleImage, n: usize) {
    for _ in 0..n {
        apu.half_step(mem);
    }
}

#[test]
fn frame_position_at_h0_is_the_first_rise_less_the_power_on_position_plus_one() {
    let t = tables();
    assert_eq!(frame_pos_at_h0(&t), 14917 - 14899 + 1);
}

#[test]
fn power_on_is_silent_at_h0() {
    let apu = Apu::new(tables());
    assert_eq!(apu.codes(), [0, 0, 15, 0, 0]);
    assert_eq!(apu.h, 0);
    assert!(!apu.frame_irq);
}

#[test]
fn the_clock_counts_half_steps() {
    let mut apu = Apu::new(tables());
    let mut mem = flat();
    run(&mut apu, &mut mem, 1000);
    assert_eq!(apu.h, 1000);
}

/// The first-sound program: square 0 enabled, duty 50 percent, constant
/// volume 15, length halted, timer 8. The code swings 0 to 15 in
/// plateaus of exactly 144 half-steps (four steps of 4 x (8 + 1)).
#[test]
fn the_square_plays_144_half_step_plateaus_at_timer_8() {
    let mut apu = Apu::new(tables());
    let mut mem = flat();
    write(&mut apu, &mut mem, 0x15, 0x01);
    write(&mut apu, &mut mem, 0x00, 0xbf);
    write(&mut apu, &mut mem, 0x02, 0x08);
    write(&mut apu, &mut mem, 0x03, 0x00);
    let mut codes = Vec::new();
    for _ in 0..4000 {
        apu.half_step(&mut mem);
        codes.push(apu.codes()[0]);
    }
    assert!(codes.iter().all(|&c| c == 0 || c == 15));
    let mut edges = Vec::new();
    for i in 1..codes.len() {
        if codes[i] != codes[i - 1] {
            edges.push(i);
        }
    }
    assert!(edges.len() >= 12, "too few plateaus: {}", edges.len());
    for w in edges.windows(2) {
        assert_eq!(w[1] - w[0], 144);
    }
    assert_eq!(apu.codes()[1], 0);
}

/// Square 1 at duty 12.5 percent (one step of eight high) at timer 8:
/// a 36-half-step pulse every 288.
#[test]
fn a_duty_0_square_is_high_one_step_in_eight() {
    let mut apu = Apu::new(tables());
    let mut mem = flat();
    write(&mut apu, &mut mem, 0x15, 0x02);
    write(&mut apu, &mut mem, 0x04, 0x3f);
    write(&mut apu, &mut mem, 0x06, 0x08);
    write(&mut apu, &mut mem, 0x07, 0x00);
    let mut codes = Vec::new();
    for _ in 0..3000 {
        apu.half_step(&mut mem);
        codes.push(apu.codes()[1]);
    }
    let highs: Vec<usize> = (1..codes.len()).filter(|&i| codes[i] == 15 && codes[i - 1] == 0).collect();
    let lows: Vec<usize> = (1..codes.len()).filter(|&i| codes[i] == 0 && codes[i - 1] == 15).collect();
    assert!(highs.len() >= 5);
    for w in highs.windows(2) {
        assert_eq!(w[1] - w[0], 288);
    }
    let first_low = lows.iter().find(|&&l| l > highs[0]).unwrap();
    assert_eq!(first_low - highs[0], 36);
}

/// A period below 8 mutes the square.
#[test]
fn a_short_period_square_stays_silent() {
    let mut apu = Apu::new(tables());
    let mut mem = flat();
    write(&mut apu, &mut mem, 0x15, 0x01);
    write(&mut apu, &mut mem, 0x00, 0xbf);
    write(&mut apu, &mut mem, 0x02, 0x07);
    write(&mut apu, &mut mem, 0x03, 0x00);
    for _ in 0..2000 {
        apu.half_step(&mut mem);
        assert_eq!(apu.codes()[0], 0);
    }
}

/// The triangle with its linear counter loaded: nothing moves before the
/// first quarter frame loads the counter, then the 32-step sequence
/// 15..0, 0..15 at one step per 2 x (8 + 1) half-steps.
#[test]
fn the_triangle_plays_its_32_step_ramp() {
    let mut apu = Apu::new(tables());
    let mut mem = flat();
    write(&mut apu, &mut mem, 0x15, 0x04);
    write(&mut apu, &mut mem, 0x08, 0xff);
    write(&mut apu, &mut mem, 0x0a, 0x08);
    write(&mut apu, &mut mem, 0x0b, 0x00);
    let mut codes = vec![apu.codes()[2]];
    for _ in 0..20000 {
        apu.half_step(&mut mem);
        codes.push(apu.codes()[2]);
    }
    assert!(codes[..10].iter().all(|&c| c == 15));
    let mut seq = vec![codes[0]];
    let mut lens = Vec::new();
    let mut last = 0;
    for i in 1..codes.len() {
        if codes[i] != codes[i - 1] {
            seq.push(codes[i]);
            if last > 0 {
                lens.push(i - last);
            }
            last = i;
        }
    }
    // The change points: 15, 14, ..., 1, 0, then (0 held twice) 1, ... 15.
    let want: Vec<u8> = (0..=15).rev().chain(1..=15).collect();
    assert_eq!(&seq[..want.len()], &want[..]);
    // Each code holds 18 half-steps, except the doubled 0 and 15 (36).
    assert_eq!(lens[0], 18);
    assert!(lens.iter().all(|&l| l == 18 || l == 36));
    assert!(lens.iter().any(|&l| l == 36));
}

/// With its linear counter loaded with zero the triangle's sequencer
/// holds: the code stays at the first step's 15 however long it runs.
#[test]
fn a_triangle_with_a_zero_linear_counter_holds_its_step() {
    let mut apu = Apu::new(tables());
    let mut mem = flat();
    write(&mut apu, &mut mem, 0x15, 0x04);
    write(&mut apu, &mut mem, 0x08, 0x80);
    write(&mut apu, &mut mem, 0x0a, 0x08);
    write(&mut apu, &mut mem, 0x0b, 0x00);
    for _ in 0..20000 {
        apu.half_step(&mut mem);
        assert_eq!(apu.codes()[2], 15);
    }
}

/// A looping envelope (duty 2, loop and halt set, period 0): its level,
/// seen as the square's loudest code between quarter frames, starts at
/// power-on's 0, loads 15 on the first quarter frame, steps down one per
/// quarter frame to 0 and wraps back to 15.
#[test]
fn a_looping_envelope_wraps_from_0_to_15() {
    let mut apu = Apu::new(tables());
    let mut mem = flat();
    write(&mut apu, &mut mem, 0x17, 0x40);
    write(&mut apu, &mut mem, 0x15, 0x01);
    write(&mut apu, &mut mem, 0x00, 0xa0);
    write(&mut apu, &mut mem, 0x02, 0x08);
    write(&mut apu, &mut mem, 0x03, 0x00);
    let mut levels: Vec<u8> = Vec::new();
    for _ in 0..320 {
        let mut loudest = 0;
        for _ in 0..1000 {
            apu.half_step(&mut mem);
            loudest = loudest.max(apu.codes()[0]);
        }
        if levels.last() != Some(&loudest) {
            levels.push(loudest);
        }
    }
    let want: Vec<u8> = [0u8].into_iter().chain((0..=15).rev()).chain([15, 14]).collect();
    assert!(levels.len() >= want.len(), "{levels:?}");
    assert_eq!(&levels[..want.len()], &want[..]);
}

/// A halted length counter (bit 5 of `$4000`) holds: the channel still
/// reports counting long after its length would have expired.
#[test]
fn a_halted_length_holds() {
    let mut apu = Apu::new(tables());
    let mut mem = flat();
    write(&mut apu, &mut mem, 0x17, 0x40);
    write(&mut apu, &mut mem, 0x15, 0x01);
    write(&mut apu, &mut mem, 0x00, 0x30);
    write(&mut apu, &mut mem, 0x03, 0x18);
    run(&mut apu, &mut mem, 3 * 59661);
    assert_eq!(apu.read_status() & 1, 1);
}

/// `$4015` reads the length counters that are counting, and the length
/// table's n-1: index 3 loads 1 and plays two half-frame clocks. In
/// 4-step mode the half frames are phases 1 and 3.
#[test]
fn a_length_of_index_3_plays_two_half_frames() {
    let mut apu = Apu::new(tables());
    let mut mem = flat();
    write(&mut apu, &mut mem, 0x17, 0x40);
    write(&mut apu, &mut mem, 0x15, 0x01);
    write(&mut apu, &mut mem, 0x00, 0x10);
    write(&mut apu, &mut mem, 0x03, 0x18);
    assert_eq!(apu.read_status() & 1, 1);
    run(&mut apu, &mut mem, 29829 + 10);
    assert_eq!(apu.read_status() & 1, 1, "one half frame in, still playing");
    run(&mut apu, &mut mem, 59661 - 29829);
    assert_eq!(apu.read_status() & 1, 0, "two half frames in, expired");
}

/// Disabling a channel in `$4015` stops its length at once.
#[test]
fn disabling_a_length_stops_it() {
    let mut apu = Apu::new(tables());
    let mut mem = flat();
    write(&mut apu, &mut mem, 0x15, 0x0f);
    write(&mut apu, &mut mem, 0x03, 0x08);
    write(&mut apu, &mut mem, 0x07, 0x08);
    write(&mut apu, &mut mem, 0x0b, 0x08);
    write(&mut apu, &mut mem, 0x0f, 0x08);
    assert_eq!(apu.read_status() & 0x0f, 0x0f);
    write(&mut apu, &mut mem, 0x15, 0x05);
    assert_eq!(apu.read_status() & 0x0f, 0x05);
}

/// A load while the channel is disabled is ignored.
#[test]
fn a_length_load_on_a_disabled_channel_is_ignored() {
    let mut apu = Apu::new(tables());
    let mut mem = flat();
    write(&mut apu, &mut mem, 0x03, 0x08);
    assert_eq!(apu.read_status() & 1, 0);
}

/// 4-step mode raises the frame IRQ with its last phase; reading `$4015`
/// reports and clears it.
#[test]
fn the_4_step_sequence_raises_the_frame_irq_and_a_read_clears_it() {
    let mut apu = Apu::new(tables());
    let mut mem = flat();
    write(&mut apu, &mut mem, 0x17, 0x00);
    run(&mut apu, &mut mem, 59661 - 10);
    assert!(!apu.frame_irq);
    run(&mut apu, &mut mem, 20);
    assert!(apu.frame_irq);
    for _ in 0..1000 {
        apu.half_step(&mut mem);
        assert!(apu.frame_irq, "the flag sticks until read");
    }
    let s = apu.read_status();
    assert_eq!(s & 0x40, 0x40);
    assert!(!apu.frame_irq);
    assert_eq!(apu.read_status() & 0x40, 0);
}

/// With the inhibit set, or in 5-step mode, the flag never rises.
#[test]
fn the_inhibit_and_the_5_step_mode_keep_the_frame_irq_clear() {
    for v in [0x40u8, 0x80, 0xc0] {
        let mut apu = Apu::new(tables());
        let mut mem = flat();
        write(&mut apu, &mut mem, 0x17, v);
        for _ in 0..200_000 {
            apu.half_step(&mut mem);
            assert!(!apu.frame_irq, "mode write {v:#04x}");
        }
    }
}

/// A `$4017` write with the inhibit clears a raised flag.
#[test]
fn an_inhibiting_mode_write_clears_the_flag() {
    let mut apu = Apu::new(tables());
    let mut mem = flat();
    write(&mut apu, &mut mem, 0x17, 0x00);
    run(&mut apu, &mut mem, 60000);
    assert!(apu.frame_irq);
    write(&mut apu, &mut mem, 0x17, 0x40);
    assert!(!apu.frame_irq);
}

/// The DMC's level register sets the 7-bit output code directly.
#[test]
fn the_dmc_level_register_sets_pcm_out() {
    let mut apu = Apu::new(tables());
    let mut mem = flat();
    write(&mut apu, &mut mem, 0x11, 0x40);
    assert_eq!(apu.codes()[4], 0x40);
    write(&mut apu, &mut mem, 0x11, 0xff);
    assert_eq!(apu.codes()[4], 0x7f);
}

/// Enabling the DMC with an empty buffer fetches `$C000` at once, marked
/// as the enable's; `$4015` bit 4 reports bytes remaining.
#[test]
fn enabling_the_dmc_fetches_c000_at_once() {
    let mut apu = Apu::new(tables());
    let mut mem = flat();
    write(&mut apu, &mut mem, 0x12, 0x00);
    write(&mut apu, &mut mem, 0x13, 0x01);
    assert_eq!(apu.dmc.fetched, None);
    write(&mut apu, &mut mem, 0x15, 0x10);
    assert_eq!(apu.dmc.fetched, Some((0xc000, true)));
    assert_eq!(apu.take_dmc_fetch(), Some((0xc000, true)));
    assert_eq!(apu.dmc.fetched, None);
    assert_eq!(apu.read_status() & 0x10, 0x10);
}

/// A 17-byte sample: the enable's fetch takes the first byte and raises
/// nothing; the last byte raises the IRQ, and `$4015` reports it until a
/// `$4015` write clears it.
#[test]
fn the_last_byte_of_a_sample_raises_the_dmc_irq() {
    let mut apu = Apu::new(tables());
    let mut mem = flat();
    write(&mut apu, &mut mem, 0x10, 0x80);
    write(&mut apu, &mut mem, 0x13, 0x01);
    write(&mut apu, &mut mem, 0x15, 0x10);
    assert!(!apu.dmc.irq);
    run(&mut apu, &mut mem, 10_000);
    assert!(apu.dmc.irq);
    assert_eq!(apu.read_status() & 0x90, 0x80);
    write(&mut apu, &mut mem, 0x15, 0x00);
    assert!(!apu.dmc.irq);
}

/// A one-byte sample started on an empty buffer: the enable's own fetch
/// takes the only byte and raises the IRQ, which the write acknowledged
/// before fetching, so the first `$4015` read shows the DMC IRQ and no
/// bytes remaining.
#[test]
fn a_one_byte_sample_started_on_an_empty_buffer_raises_the_dmc_irq() {
    let mut apu = Apu::new(tables());
    let mut mem = flat();
    for (r, v) in [(0x17u8, 0x40u8), (0x10, 0x8f), (0x12, 0x00), (0x13, 0x00), (0x15, 0x10)] {
        write(&mut apu, &mut mem, r, v);
    }
    assert_eq!(apu.dmc.fetched, Some((0xc000, true)));
    assert_eq!(apu.read_status(), 0x80);
}

/// A looping sample never runs out and never raises the IRQ.
#[test]
fn a_looping_sample_keeps_bytes_remaining() {
    let mut apu = Apu::new(tables());
    let mut mem = flat();
    write(&mut apu, &mut mem, 0x10, 0xc0);
    write(&mut apu, &mut mem, 0x13, 0x00);
    write(&mut apu, &mut mem, 0x15, 0x10);
    for _ in 0..20 {
        run(&mut apu, &mut mem, 1000);
        assert!(!apu.dmc.irq);
        assert_eq!(apu.read_status() & 0x10, 0x10);
    }
}

/// The output counter steps by two per bit: `%10100101` from `$40`
/// plays `$42, $40, $42, $40, $3E, $40, $3E, $40`.
#[test]
fn the_dmc_level_steps_by_two_per_bit() {
    let mut apu = Apu::new(tables());
    let mut mem = flat();
    assert_eq!(mem.bytes[0xc000], 0xa5);
    write(&mut apu, &mut mem, 0x11, 0x40);
    write(&mut apu, &mut mem, 0x12, 0x00);
    write(&mut apu, &mut mem, 0x13, 0x01);
    write(&mut apu, &mut mem, 0x15, 0x10);
    let mut levels = vec![apu.codes()[4]];
    for _ in 0..1000 {
        apu.half_step(&mut mem);
        let c = apu.codes()[4];
        if c != *levels.last().unwrap() {
            levels.push(c);
        }
    }
    assert_eq!(&levels[..9], &[0x40, 0x42, 0x40, 0x42, 0x40, 0x3e, 0x40, 0x3e, 0x40]);
}

/// The noise at constant volume plays only codes 0 and the volume, and
/// its shift register keeps moving (it never locks at zero).
#[test]
fn the_noise_plays_its_volume_and_keeps_shifting() {
    let mut apu = Apu::new(tables());
    let mut mem = flat();
    write(&mut apu, &mut mem, 0x15, 0x08);
    write(&mut apu, &mut mem, 0x0c, 0x3c);
    write(&mut apu, &mut mem, 0x0e, 0x00);
    write(&mut apu, &mut mem, 0x0f, 0x00);
    let mut seen0 = false;
    let mut seen12 = false;
    for _ in 0..50_000 {
        apu.half_step(&mut mem);
        let c = apu.codes()[3];
        assert!(c == 0 || c == 12);
        seen0 |= c == 0;
        seen12 |= c == 12;
    }
    assert!(seen0 && seen12);
}

/// The five codes fit their pins on a busy program.
#[test]
fn the_codes_fit_their_pins() {
    let mut apu = Apu::new(tables());
    let mut mem = flat();
    let prog = [
        (0x17, 0x00),
        (0x15, 0x1f),
        (0x00, 0xa6),
        (0x01, 0xa9),
        (0x02, 0xab),
        (0x03, 0x09),
        (0x04, 0x7f),
        (0x05, 0x91),
        (0x06, 0x00),
        (0x07, 0x3a),
        (0x08, 0xc0),
        (0x0a, 0x50),
        (0x0b, 0x48),
        (0x0c, 0x04),
        (0x0e, 0x04),
        (0x0f, 0x10),
        (0x10, 0x4f),
        (0x11, 0x20),
        (0x12, 0x00),
        (0x13, 0x02),
        (0x15, 0x1f),
    ];
    for (r, v) in prog {
        write(&mut apu, &mut mem, r, v);
    }
    for _ in 0..100_000 {
        apu.half_step(&mut mem);
        let c = apu.codes();
        assert!(c[0] <= 15 && c[1] <= 15 && c[2] <= 15 && c[3] <= 15 && c[4] <= 127);
    }
}

/// Power-cycling returns the APU to h=0.
#[test]
fn a_power_cycle_returns_to_h0() {
    let mut apu = Apu::new(tables());
    let mut mem = flat();
    write(&mut apu, &mut mem, 0x15, 0x1f);
    run(&mut apu, &mut mem, 500);
    apu.power_cycle();
    assert_eq!(apu.h, 0);
    assert_eq!(apu.codes(), [0, 0, 15, 0, 0]);
    assert_eq!(apu.read_status(), 0);
}

#[test]
fn the_measured_tables_pass_their_check() {
    assert!(tables().check());
}

#[test]
fn tables_that_break_the_sequencer_fail_their_check() {
    let mut t = tables();
    t.frame_5 = Vec::new();
    assert!(!t.check());

    let mut t = tables();
    t.frame_power_on = 14918;
    assert!(!t.check());

    let mut t = tables();
    t.frame_4_period = 0x0100_0001;
    assert!(!t.check());

    let mut t = tables();
    t.frame_4.push((0x0100_0001, 3));
    assert!(!t.check());

    let mut t = tables();
    t.mode1_clock = 2;
    assert!(!t.check());

    let mut t = tables();
    t.frame_jitter = 253;
    assert!(!t.check());

    let mut t = tables();
    t.dmc_timer.taps = (32, 31);
    assert!(!t.check());
}

/// A whole sample from `$FFC0`, 65 bytes: the fetches read each address
/// once, in order, the cursor wrapping from `$FFFF` to `$8000`; nothing
/// is fetched after the last byte, whose fetch raises the DMC IRQ.
#[test]
fn a_sample_is_fetched_in_order_wrapping_to_8000() {
    let mut apu = Apu::new(tables());
    let mut mem = flat();
    let mut addrs = Vec::new();
    for (r, v) in [(0x10u8, 0x80u8), (0x12, 0xff), (0x13, 0x04), (0x15, 0x10)] {
        write(&mut apu, &mut mem, r, v);
        if let Some(f) = apu.take_dmc_fetch() {
            addrs.push(f.0);
        }
    }
    let mut irq_at = None;
    for k in 0..40_000 {
        apu.half_step(&mut mem);
        if let Some(f) = apu.take_dmc_fetch() {
            addrs.push(f.0);
        }
        if irq_at.is_none() && apu.dmc.irq {
            irq_at = Some((k, addrs.len()));
        }
    }
    let want: Vec<u16> = (0xffc0u32..=0xffff).map(|a| a as u16).chain([0x8000]).collect();
    assert_eq!(addrs, want);
    assert_eq!(irq_at.map(|x| x.1), Some(65), "the IRQ rises with the last byte's fetch");
}

/// A `$4017` write of the 4-step mode: the flag, clear before, is still
/// clear `hold + 59661 + 1` half-steps on (the write's own included) and
/// set one later, where `hold` is 0 for a write on the measured parity
/// (h = 2 mod 4) and the jitter, 2, on the other.
#[test]
fn the_frame_irq_rises_on_time_after_a_4017_write_on_both_parities() {
    for (lead, hold) in [(0usize, 2usize), (2, 0)] {
        let mut apu = Apu::new(tables());
        let mut mem = flat();
        run(&mut apu, &mut mem, lead);
        write(&mut apu, &mut mem, 0x17, 0x00);
        run(&mut apu, &mut mem, hold + 59661);
        assert!(!apu.frame_irq, "lead {lead}");
        apu.half_step(&mut mem);
        assert!(apu.frame_irq, "lead {lead}");
    }
}

/// A mode-1 `$4017` write clocks every length once, at once: with each
/// length at its last count, a second such write expires the triangle's
/// and the noise's in its half-step `lead + 2` and the squares' in
/// `lead + 4` (the write's own half-step counted first), where `lead` is
/// the mode-1 clock less 3 plus the parity's hold (0 on h = 2 mod 4,
/// the jitter, 2, otherwise).
#[test]
fn a_mode_1_write_clocks_the_lengths_on_time() {
    for lead_in in [0usize, 1, 2, 3] {
        let mut apu = Apu::new(tables());
        let mut mem = flat();
        run(&mut apu, &mut mem, lead_in);
        for (r, v) in [(0x15u8, 0x0fu8), (0x00, 0x10), (0x03, 0x18), (0x04, 0x10), (0x07, 0x18), (0x08, 0x7f), (0x0b, 0x18), (0x0c, 0x10), (0x0f, 0x18)] {
            write(&mut apu, &mut mem, r, v);
        }
        write(&mut apu, &mut mem, 0x17, 0xc0);
        run(&mut apu, &mut mem, 20);
        assert_eq!(apu.read_status() & 0x0f, 0x0f, "each length down to its last count");
        let hold = if apu.h % 4 == 2 { 0 } else { 2 };
        let lead = 0 + hold;
        apu.write(0x17, 0xc0);
        for n in 1..=lead + 6 {
            apu.half_step(&mut mem);
            let s = apu.read_status() & 0x0f;
            let tri_noise = if n >= lead + 2 { 0 } else { 0x0c };
            let squares = if n >= lead + 4 { 0 } else { 0x03 };
            assert_eq!(s, tri_noise | squares, "lead_in {lead_in}, half-step {n}");
        }
    }
}
