use v2a03::lockstep::{classify, stack_offset, Class, PinFrame, CLASSES};

fn frame(h: u64, ab: u16, db: u8, rw: bool, clk0: bool) -> PinFrame {
    PinFrame { h, clk0, ab, db, rw, sync: false, res: true, irq: true, nmi: true, rdy: true, so: false }
}

/// A short program's frames: a fetch, a push to the stack, a write.
fn trace(stack_low: u8) -> Vec<PinFrame> {
    vec![
        frame(0, 0x8000, 0xa9, true, false),
        frame(1, 0x8000, 0xa9, true, true),
        frame(2, 0x0100 | stack_low as u16, 0x42, false, false),
        frame(3, 0x0100 | stack_low as u16, 0x42, false, true),
        frame(4, 0x0200, 0x07, false, false),
        frame(5, 0x0200, 0x07, false, true),
    ]
}

#[test]
fn identical_streams_carry_no_class() {
    let t = trace(0xfd);
    let r = classify(&t, &t, 0, false);
    assert_eq!(r.frames, 6);
    assert_eq!(r.counts.len(), CLASSES);
    assert!(r.counts.iter().all(|&c| c == 0));
    assert!(r.loud.is_empty());
}

/// The two dies' stacks sit $40 apart: the offset is read off the first
/// stack access, and every stack-page difference by it is the `stack`
/// class, not loud.
#[test]
fn the_stack_page_offset_is_derived_and_named() {
    let e = trace(0xfd);
    let g = trace(0xbd);
    assert_eq!(stack_offset(&e, &g), Some(0x40));
    let r = classify(&e, &g, 0x40, false);
    assert_eq!(r.count(Class::Stack), 2);
    assert!(r.loud.is_empty());
    // A wrong offset makes the same frames loud address differences.
    let r = classify(&e, &g, 0x3f, false);
    assert_eq!(r.count(Class::Ab), 2);
    assert_eq!(r.loud.len(), 2);
    assert_eq!(r.loud[0].h, 2);
    assert_eq!(r.loud[0].classes, vec![Class::Ab]);
}

#[test]
fn no_stack_access_gives_no_offset() {
    let e = vec![frame(0, 0x8000, 0, true, false)];
    assert_eq!(stack_offset(&e, &e), None);
    // The recording touches page 1 where the chip does not.
    let e = trace(0xfd);
    let mut g = trace(0xbd);
    g[2].ab = 0x0300;
    assert_eq!(stack_offset(&e, &g), None);
    assert_eq!(stack_offset(&e, &g[..2]), None);
}

/// The offset wraps modulo 256.
#[test]
fn the_offset_wraps() {
    let e = trace(0x10);
    let g = trace(0x30);
    assert_eq!(stack_offset(&e, &g), Some(0xe0));
}

/// A data byte differing on a write's phi1 is named; on the write's phi2
/// it is serviced data and loud.
#[test]
fn the_write_phi1_byte_is_named_and_serviced_data_is_loud() {
    let e = trace(0xfd);
    let mut g = trace(0xfd);
    g[4].db = 0x55;
    let r = classify(&e, &g, 0, false);
    assert_eq!(r.count(Class::WritePhi1), 1);
    assert!(r.loud.is_empty());
    g[5].db = 0x55;
    let r = classify(&e, &g, 0, false);
    assert_eq!(r.count(Class::Data), 1);
    assert_eq!(r.loud.len(), 1);
    assert_eq!(r.loud[0].h, 5);
    assert_eq!(r.loud[0].classes, vec![Class::Data]);
    assert_eq!(r.loud[0].expected, e[5]);
    assert_eq!(r.loud[0].got, g[5]);
}

/// The S leak in page 0 is named only where the caller allows it.
#[test]
fn the_s_leak_is_named_only_where_allowed() {
    let e = vec![frame(0, 0x000f, 0, true, false)];
    let g = vec![frame(0, 0x00cf, 0, true, false)];
    let r = classify(&e, &g, 0x40, true);
    assert_eq!(r.count(Class::SLeak), 1);
    assert!(r.loud.is_empty());
    let r = classify(&e, &g, 0x40, false);
    assert_eq!(r.count(Class::Ab), 1);
    assert_eq!(r.loud.len(), 1);
}

/// Every other field is loud by its own name, all of a frame's classes
/// listed in order.
#[test]
fn other_fields_are_loud_by_name() {
    let e = trace(0xfd);
    let mut g = trace(0xfd);
    g[1].rw = false;
    g[1].sync = true;
    g[1].irq = false;
    g[3].h = 99;
    let r = classify(&e, &g, 0, false);
    assert_eq!(r.count(Class::Rw), 1);
    assert_eq!(r.count(Class::Sync), 1);
    assert_eq!(r.count(Class::Irq), 1);
    assert_eq!(r.count(Class::H), 1);
    assert_eq!(r.loud.len(), 2);
    assert_eq!(r.loud[0].classes, vec![Class::Rw, Class::Sync, Class::Irq]);
    assert_eq!(r.loud[1].classes, vec![Class::H]);
}

/// Streams of different lengths: the common frames compared, and one
/// loud `length` entry at the first frame only one holds.
#[test]
fn a_length_mismatch_is_loud() {
    let e = trace(0xfd);
    let g = &e[..4];
    let r = classify(&e, g, 0, false);
    assert_eq!(r.frames, 4);
    assert_eq!(r.count(Class::Length), 1);
    assert_eq!(r.loud.len(), 1);
    assert_eq!(r.loud[0].h, 4);
    assert_eq!(r.loud[0].classes, vec![Class::Length]);
    assert_eq!(r.loud[0].expected, e[4]);
    assert_eq!(r.loud[0].got, PinFrame::default());
}

#[test]
fn class_names_are_the_printed_words() {
    assert_eq!(Class::Stack.name(), "stack");
    assert_eq!(Class::SLeak.name(), "s-leak");
    assert_eq!(Class::WritePhi1.name(), "write-phi1");
    assert_eq!(Class::Data.name(), "data");
    assert_eq!(Class::Length.name(), "length");
    assert_eq!(Class::Clk0.index(), 6);
}
