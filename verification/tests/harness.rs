use v2a03::harness::{bits_of, pack_bits, place_loads, state_line, ClockWait, Harness, Load, Pulse};
use v2a03::pins::{CorePins, PinLevels, ALIGN_PHASES};
use v2a03::lockstep::PinFrame;

#[test]
fn a_fresh_harness_reads_zero() {
    let h = Harness::new();
    assert_eq!(h.memory.len(), 0x10000);
    assert!((0..=0xffffu16).all(|a| h.bus_read(a) == 0));
}

#[test]
fn load_places_the_program_and_the_reset_vector() {
    let mut h = Harness::new();
    h.load(0x8000, &[0xa9, 0x42, 0x8d, 0x00, 0x02], 0x8000);
    assert_eq!(&h.memory[0x8000..0x8005], &[0xa9, 0x42, 0x8d, 0x00, 0x02]);
    assert_eq!(h.memory[0xfffc], 0x00);
    assert_eq!(h.memory[0xfffd], 0x80);
    assert_eq!(h.memory[0x7fff], 0);
    assert_eq!(h.memory[0x8005], 0);
}

#[test]
fn a_write_reads_back() {
    let mut h = Harness::new();
    h.bus_write(0x0200, 0x42);
    assert_eq!(h.bus_read(0x0200), 0x42);
    assert_eq!(h.bus_read(0x0201), 0);
}

/// The mutation serves its address XOR the mask, and nothing else.
#[test]
fn the_mutation_flips_only_its_address() {
    let mut h = Harness::new();
    h.load(0x8000, &[0xa9, 0x08], 0x8000);
    h.mutate_read = Some((0x8001, 0x01));
    assert_eq!(h.bus_read(0x8001), 0x09);
    assert_eq!(h.bus_read(0x8000), 0xa9);
    assert_eq!(h.memory[0x8001], 0x08);
}

#[test]
fn loads_are_placed_in_order() {
    let mut m = vec![0u8; 0x10000];
    let loads = vec![Load { org: 0x8000, bytes: vec![1, 2, 3] }, Load { org: 0x8001, bytes: vec![9] }, Load { org: 0xc000, bytes: vec![7; 4] }];
    place_loads(&mut m, &loads, 0x1234);
    assert_eq!(&m[0x8000..0x8003], &[1, 9, 3]);
    assert_eq!(&m[0xc000..0xc004], &[7, 7, 7, 7]);
    assert_eq!(m[0xfffc], 0x34);
    assert_eq!(m[0xfffd], 0x12);
}

#[test]
fn bits_read_back() {
    assert_eq!(bits_of(0xa5, 8), vec![true, false, true, false, false, true, false, true]);
    assert_eq!(pack_bits(&bits_of(0xa5, 8)), 0xa5);
    assert_eq!(pack_bits(&bits_of(0x1234, 8)), 0x34);
    assert_eq!(pack_bits(&bits_of(0xdead_beef, 32)), 0xdead_beef);
    assert_eq!(pack_bits(&[]), 0);
    assert_eq!(pack_bits(&[false, true]), 2);
}

/// A divider that never flips is given up on at the ceiling.
#[test]
fn the_wait_stops_at_the_ceiling() {
    let mut w = ClockWait::new(true, 4);
    assert_eq!(w.pulse(true), Pulse::Waiting);
    assert_eq!(w.pulse(true), Pulse::Waiting);
    assert_eq!(w.pulse(true), Pulse::Waiting);
    assert_eq!(w.pulse(true), Pulse::Stopped);
    let mut w = ClockWait::new(false, 0);
    assert_eq!(w.pulse(false), Pulse::Stopped);
}

/// A fall of clk0 serves a read; a rise captures a write.
#[test]
fn a_flip_calls_for_its_service() {
    let mut w = ClockWait::new(true, 1 << 16);
    assert_eq!(w.pulse(true), Pulse::Waiting);
    assert_eq!(w.pulse(false), Pulse::Read);
    let mut w = ClockWait::new(false, 1 << 16);
    assert_eq!(w.pulse(true), Pulse::Write);
}

#[test]
fn the_state_line_spells_existing_high_nodes() {
    let line: String = state_line(&[true, true, false, true], &[true, false, true, true]).into_iter().collect();
    assert_eq!(line, "1001");
}

fn levels(ab: u16, db: u8) -> PinLevels {
    PinLevels { clk0: true, ab: bits_of(ab as u32, 16), db: bits_of(db as u32, 8), rw: true, sync: true, res: true, irq: true, nmi: true, rdy: true, so: false }
}

#[test]
fn the_core_at_the_pins() {
    let loads = vec![Load { org: 0x8000, bytes: vec![0xa9, 0x42] }];
    let mut cp = CorePins::new(loads, 0x8000);
    assert_eq!(cp.har.memory[0x8000], 0xa9);
    assert_eq!(cp.har.memory[0xfffd], 0x80);
    for _ in 0..ALIGN_PHASES {
        cp.half_step(true);
    }
    assert_eq!(cp.h(), 17);
    let f = cp.pins(&levels(0x8000, 0xa9));
    assert_eq!(f, PinFrame { h: 17, clk0: true, ab: 0x8000, db: 0xa9, rw: true, sync: true, res: true, irq: true, nmi: true, rdy: true, so: false });
    assert!(cp.is_reset_fetch(&f));
    assert!(!cp.is_reset_fetch(&cp.pins(&levels(0x8001, 0xa9))));
    cp.half_step(false);
    assert!(cp.clock_stopped);
    assert_eq!(cp.set_inputs(true, false, true, false, false), (true, false, true));
    assert!(cp.absent_pin_driven);
    cp.har.bus_write(0x8000, 0);
    cp.power_cycle();
    assert_eq!(cp.h(), 0);
    assert!(!cp.absent_pin_driven && !cp.clock_stopped);
    assert_eq!(cp.har.memory[0x8000], 0xa9);
    assert_eq!(CorePins::stack_pointer(&bits_of(0xbd, 8)), 0xbd);
}

/// Each serviced flip counts one half-step: a falling clk0 with R/W
/// high serves the byte, a rising clk0 with R/W low captures one, and
/// the other two combinations touch nothing.
#[test]
fn each_service_counts_one_half_step() {
    let mut h = Harness::new();
    h.load(0x8000, &[0xa9, 0x42], 0x8000);
    assert_eq!(h.serve(true, true, 0x8001, 0x00), Some(0x42));
    assert_eq!(h.serve(false, false, 0x0200, 0x99), None);
    assert_eq!(h.memory[0x0200], 0x99);
    assert_eq!(h.serve(true, false, 0x0201, 0x55), None);
    assert_eq!(h.serve(false, true, 0x0202, 0x55), None);
    assert_eq!(h.memory[0x0201], 0);
    assert_eq!(h.memory[0x0202], 0);
    assert_eq!(h.half_steps, 4);
}
