//! The memory side of the bus harness, serviced the way the reference
//! simulator does it: 64 KiB, zero where nothing was loaded or written;
//! a read served as clk0 falls, a write captured as it rises; the data
//! bus driven by one pull per bit and read back as the sum of its bits.
//! The switch-level engine that owns the nodes is the host's: this
//! module holds the decisions around it, including when to stop waiting
//! on a divider that never flips.

use vstd::prelude::*;
use vstd::arithmetic::power2::{pow2, lemma2_to64, lemma_pow2_unfold, lemma_pow2_pos, lemma_pow2_strictly_increases};
use vstd::arithmetic::div_mod::{lemma_div_denominator, lemma_mod_breakdown};

verus! {

/// The size of the CPU's address space.
pub const MEMORY_SIZE: usize = 0x10000;

/// Bytes to place at an address before the first half-step.
#[derive(Clone, Debug)]
pub struct Load {
    pub org: u16,
    pub bytes: Vec<u8>,
}

impl Load {
    /// The load lies inside the address space.
    pub open spec fn fits(self) -> bool {
        self.org + self.bytes@.len() <= MEMORY_SIZE
    }
}

/// `mem` with `bytes` written from `org` on.
pub open spec fn placed(mem: Seq<u8>, org: int, bytes: Seq<u8>) -> Seq<u8> {
    Seq::new(mem.len(), |i: int| if org <= i < org + bytes.len() { bytes[i - org] } else { mem[i] })
}

/// `mem` with the reset vector's two bytes at `$FFFC`/`$FFFD`, low first.
pub open spec fn with_reset_vector(mem: Seq<u8>, reset_vector: u16) -> Seq<u8> {
    mem.update(0xfffc, (reset_vector % 256) as u8).update(0xfffd, (reset_vector / 256) as u8)
}

/// `mem` with each of `loads` placed in order.
pub open spec fn placed_all(mem: Seq<u8>, loads: Seq<Load>) -> Seq<u8>
    decreases loads.len(),
{
    if loads.len() == 0 {
        mem
    } else {
        placed(placed_all(mem, loads.drop_last()), loads.last().org as int, loads.last().bytes@)
    }
}

/// What a load leaves in memory: byte `i` of the load at `org + i`, the
/// reset vector's low byte at `$FFFC` and its high byte at `$FFFD`, and
/// every other address as it was.
pub proof fn law_load_places_bytes(mem: Seq<u8>, org: int, bytes: Seq<u8>, reset_vector: u16)
    requires
        mem.len() == MEMORY_SIZE,
        0 <= org,
        org + bytes.len() <= MEMORY_SIZE,
    ensures
        ({
            let m = with_reset_vector(placed(mem, org, bytes), reset_vector);
            &&& m.len() == MEMORY_SIZE
            &&& forall|i: int| 0 <= i < bytes.len() && org + i < 0xfffc ==> #[trigger] m[org + i] == bytes[i]
            &&& m[0xfffc] == reset_vector % 256
            &&& m[0xfffd] == reset_vector / 256
            &&& forall|a: int| 0 <= a < MEMORY_SIZE && !(org <= a < org + bytes.len()) && a != 0xfffc && a != 0xfffd
                ==> #[trigger] m[a] == mem[a]
        }),
{
    let m = with_reset_vector(placed(mem, org, bytes), reset_vector);
    assert forall|i: int| 0 <= i < bytes.len() && org + i < 0xfffc implies #[trigger] m[org + i] == bytes[i] by {
        assert(placed(mem, org, bytes)[org + i] == bytes[i]);
    }
}

/// Copy `bytes` into `mem` from `org` on.
pub fn place(mem: &mut Vec<u8>, org: u16, bytes: &[u8])
    requires
        org + bytes@.len() <= old(mem)@.len(),
    ensures
        final(mem)@ == placed(old(mem)@, org as int, bytes@),
{
    let n = mem.len();
    let mut k: usize = 0;
    while k < bytes.len()
        invariant
            n == mem@.len(),
            org + bytes@.len() <= mem@.len(),
            mem@.len() == old(mem)@.len(),
            k <= bytes@.len(),
            forall|i: int|
                0 <= i < mem@.len() ==> #[trigger] mem@[i] == if org <= i < org + k {
                    bytes@[i - org]
                } else {
                    old(mem)@[i]
                },
        decreases bytes.len() - k,
    {
        mem.set(org as usize + k, bytes[k]);
        k = k + 1;
    }
    assert(mem@ =~= placed(old(mem)@, org as int, bytes@));
}

/// Every load placed in order, then the reset vector set: the image a
/// core is built on.
pub fn place_loads(mem: &mut Vec<u8>, loads: &[Load], reset_vector: u16)
    requires
        old(mem)@.len() == MEMORY_SIZE,
        forall|i: int| 0 <= i < loads@.len() ==> (#[trigger] loads@[i]).fits(),
    ensures
        final(mem)@ == with_reset_vector(placed_all(old(mem)@, loads@), reset_vector),
        final(mem)@.len() == MEMORY_SIZE,
{
    let mut k: usize = 0;
    while k < loads.len()
        invariant
            k <= loads@.len(),
            mem@.len() == MEMORY_SIZE,
            forall|i: int| 0 <= i < loads@.len() ==> (#[trigger] loads@[i]).fits(),
            mem@ == placed_all(old(mem)@, loads@.take(k as int)),
        decreases loads.len() - k,
    {
        let l = &loads[k];
        assert(loads@.take((k + 1) as int).drop_last() =~= loads@.take(k as int));
        place(mem, l.org, l.bytes.as_slice());
        k = k + 1;
    }
    assert(loads@.take(loads@.len() as int) =~= loads@);
    mem.set(0xfffc, (reset_vector % 256) as u8);
    mem.set(0xfffd, (reset_vector / 256) as u8);
}

/// The harness's memory: 64 KiB, zero where nothing was loaded or
/// written; the half-steps serviced so far; and, for a mutation proof
/// only, one address whose served byte is XORed with a mask.
pub struct Harness {
    pub memory: Vec<u8>,
    pub half_steps: u64,
    pub mutate_read: Option<(u16, u8)>,
}

impl Harness {
    pub open spec fn wf(self) -> bool {
        self.memory@.len() == MEMORY_SIZE
    }

    /// The byte a read of `a` is served: the memory's, XORed with the
    /// mutation's mask at its address.
    pub open spec fn served(self, a: u16) -> u8 {
        match self.mutate_read {
            Some(m) => if m.0 == a {
                self.memory@[a as int] ^ m.1
            } else {
                self.memory@[a as int]
            },
            None => self.memory@[a as int],
        }
    }

    /// 64 KiB of zeros, nothing serviced, no mutation.
    pub fn new() -> (h: Harness)
        ensures
            h.wf(),
            forall|i: int| 0 <= i < MEMORY_SIZE ==> #[trigger] h.memory@[i] == 0,
            h.half_steps == 0,
            h.mutate_read is None,
    {
        let mut memory: Vec<u8> = Vec::new();
        let mut k: usize = 0;
        while k < MEMORY_SIZE
            invariant
                k <= MEMORY_SIZE,
                memory@.len() == k,
                forall|i: int| 0 <= i < k ==> #[trigger] memory@[i] == 0,
            decreases MEMORY_SIZE - k,
        {
            memory.push(0);
            k = k + 1;
        }
        Harness { memory, half_steps: 0, mutate_read: None }
    }

    /// Load bytes and point the reset vector at them. Call before the
    /// first half step so the post-reset fetch finds the program.
    pub fn load(&mut self, addr: u16, bytes: &[u8], reset_vector: u16)
        requires
            old(self).wf(),
            addr + bytes@.len() <= MEMORY_SIZE,
        ensures
            final(self).memory@ == with_reset_vector(placed(old(self).memory@, addr as int, bytes@), reset_vector),
            final(self).half_steps == old(self).half_steps,
            final(self).mutate_read == old(self).mutate_read,
            final(self).wf(),
    {
        place(&mut self.memory, addr, bytes);
        self.memory.set(0xfffc, (reset_vector % 256) as u8);
        self.memory.set(0xfffd, (reset_vector / 256) as u8);
    }

    /// The byte served for a read of `a`, as clk0 falls with R/W high.
    pub fn bus_read(&self, a: u16) -> (d: u8)
        requires
            self.wf(),
        ensures
            d == self.served(a),
    {
        let mut d = self.memory[a as usize];
        match self.mutate_read {
            Some(m) => {
                if a == m.0 {
                    d = d ^ m.1;
                }
            },
            None => {},
        }
        d
    }

    /// The bus service once clk0 has flipped, counted as one half-step:
    /// a falling clk0 (`clk_was_high`) with R/W high serves the byte for
    /// `a`, returned for driving onto the data bus; a rising clk0 with
    /// R/W low captures `d` at `a`; anything else leaves memory alone.
    pub fn serve(&mut self, clk_was_high: bool, rw: bool, a: u16, d: u8) -> (driven: Option<u8>)
        requires
            old(self).wf(),
            old(self).half_steps < u64::MAX,
        ensures
            final(self).wf(),
            final(self).half_steps == old(self).half_steps + 1,
            final(self).mutate_read == old(self).mutate_read,
            driven == (if clk_was_high && rw { Some(old(self).served(a)) } else { None::<u8> }),
            final(self).memory@ == (if !clk_was_high && !rw {
                old(self).memory@.update(a as int, d)
            } else {
                old(self).memory@
            }),
    {
        let driven = if clk_was_high {
            if rw {
                Some(self.bus_read(a))
            } else {
                None
            }
        } else {
            if !rw {
                self.bus_write(a, d);
            }
            None
        };
        self.half_steps = self.half_steps + 1;
        driven
    }

    /// A write of `d` to `a` captured, as clk0 rises with R/W low.
    pub fn bus_write(&mut self, a: u16, d: u8)
        requires
            old(self).wf(),
        ensures
            final(self).memory@ == old(self).memory@.update(a as int, d),
            final(self).half_steps == old(self).half_steps,
            final(self).mutate_read == old(self).mutate_read,
            final(self).wf(),
    {
        self.memory.set(a as usize, d);
    }
}

/// What the harness reads back is what was written: a write to `a`
/// reads back at `a` (no mutation standing), and leaves every other
/// address as it read before; a fresh harness reads zero everywhere.
pub proof fn law_read_gives_back_write(h1: Harness, h2: Harness, a: u16, d: u8, b: u16)
    requires
        h1.wf(),
        h2.memory@ == h1.memory@.update(a as int, d),
        h2.mutate_read == h1.mutate_read,
    ensures
        h2.mutate_read is None ==> h2.served(a) == d,
        b != a ==> h2.served(b) == h1.served(b),
        (forall|i: int| 0 <= i < MEMORY_SIZE ==> #[trigger] h1.memory@[i] == 0) && h1.mutate_read is None ==> h1.served(b) == 0,
{
}

/// The bus service a flip of clk0 calls for.
#[derive(Clone, Copy, Debug, PartialEq, Eq, Structural)]
pub enum Pulse {
    /// clk0 fell: serve a read.
    Read,
    /// clk0 rose: capture a write.
    Write,
    /// Not yet: pulse the master clock again.
    Waiting,
    /// The ceiling on master pulses was reached with clk0 unmoved.
    Stopped,
}

/// Waiting for clk0 to flip: its level when the wait began, the master
/// pulses spent without a flip, and the ceiling.
pub struct ClockWait {
    clk: bool,
    spent: u32,
    max: u32,
}

impl ClockWait {
    pub closed spec fn spent_pulses(self) -> u32 {
        self.spent
    }

    pub closed spec fn ceiling(self) -> u32 {
        self.max
    }

    pub closed spec fn level(self) -> bool {
        self.clk
    }

    /// One master pulse with clk0 left at `clk_now`: a flip ends the
    /// wait (a fall serves a read, a rise captures a write); otherwise
    /// the pulse is spent, and the ceiling reached stops the wait.
    pub closed spec fn pulsed(self, clk_now: bool) -> (ClockWait, Pulse) {
        if clk_now != self.clk {
            (self, if self.clk { Pulse::Read } else { Pulse::Write })
        } else {
            let w = ClockWait { spent: (self.spent + 1) as u32, ..self };
            (w, if w.spent >= self.max { Pulse::Stopped } else { Pulse::Waiting })
        }
    }

    /// A wait beginning with clk0 at `clk`, giving up after `max`
    /// master pulses (at least one).
    pub fn new(clk: bool, max: u32) -> (w: ClockWait)
        ensures
            w.level() == clk,
            w.spent_pulses() == 0,
            w.ceiling() == max,
    {
        ClockWait { clk, spent: 0, max }
    }

    pub fn pulse(&mut self, clk_now: bool) -> (p: Pulse)
        requires
            old(self).spent_pulses() < old(self).ceiling() || old(self).spent_pulses() == 0,
        ensures
            (*final(self), p) == old(self).pulsed(clk_now),
    {
        if clk_now != self.clk {
            return if self.clk { Pulse::Read } else { Pulse::Write };
        }
        self.spent = self.spent + 1;
        if self.spent >= self.max {
            Pulse::Stopped
        } else {
            Pulse::Waiting
        }
    }

    /// The wait after `k` pulses that all left clk0 where it was.
    pub closed spec fn unmoved(self, k: nat) -> ClockWait
        decreases k,
    {
        if k == 0 {
            self
        } else {
            self.unmoved((k - 1) as nat).pulsed(self.clk).0
        }
    }
}

/// A divider that never flips is given up on after exactly the ceiling's
/// master pulses (one when the ceiling is zero): every earlier pulse
/// waits, that one stops.
pub proof fn law_wait_stops_at_the_ceiling(w: ClockWait, k: nat)
    requires
        w.spent_pulses() == 0,
        k < if w.ceiling() == 0 { 1 } else { w.ceiling() as int },
    ensures
        w.unmoved(k).spent_pulses() == k,
        w.unmoved(k).level() == w.level(),
        w.unmoved(k).ceiling() == w.ceiling(),
        w.unmoved(k).pulsed(w.level()).1 == if k + 1 >= w.ceiling() { Pulse::Stopped } else { Pulse::Waiting },
    decreases k,
{
    if k > 0 {
        law_wait_stops_at_the_ceiling(w, (k - 1) as nat);
        assert(w.unmoved(k) == w.unmoved((k - 1) as nat).pulsed(w.level()).0);
    }
    let u = w.unmoved(k);
    assert(u.spent_pulses() == k);
    assert(u.pulsed(w.level()).0.spent_pulses() == k + 1);
}

/// The word the levels spell, bit `i` the `i`th level.
pub open spec fn packed(levels: Seq<bool>) -> nat
    decreases levels.len(),
{
    if levels.len() == 0 {
        0
    } else {
        packed(levels.drop_last()) + if levels.last() { pow2((levels.len() - 1) as nat) } else { 0 }
    }
}

/// The levels that drive `val` onto `n` pins: bit `i` of `val` on pin `i`.
pub open spec fn bit_levels(val: nat, n: nat) -> Seq<bool> {
    Seq::new(n, |i: int| (val / pow2(i as nat)) % 2 == 1)
}

/// The word `n` levels spell is below `2^n`.
pub proof fn lemma_packed_below(levels: Seq<bool>)
    ensures
        packed(levels) < pow2(levels.len()),
{
    lemma_packed_bound(levels);
}

proof fn lemma_packed_bound(levels: Seq<bool>)
    ensures
        packed(levels) < pow2(levels.len()),
    decreases levels.len(),
{
    lemma_pow2_pos(levels.len());
    if levels.len() > 0 {
        lemma_packed_bound(levels.drop_last());
        lemma_pow2_unfold(levels.len());
    }
}

/// The bits of a word, read back: `n` pins driven with `val`'s levels
/// spell `val` modulo `2^n`.
pub proof fn law_bits_read_back(val: nat, n: nat)
    ensures
        packed(bit_levels(val, n)) == val % pow2(n),
    decreases n,
{
    lemma_pow2_pos(n);
    if n == 0 {
        assert(bit_levels(val, 0) =~= Seq::<bool>::empty());
        assert(pow2(0) == 1) by {
            lemma2_to64();
        }
    } else {
        let m = (n - 1) as nat;
        law_bits_read_back(val, m);
        assert(bit_levels(val, n).drop_last() =~= bit_levels(val, m));
        lemma_pow2_unfold(n);
        lemma_pow2_pos(m);
        lemma_mod_breakdown(val as int, pow2(m) as int, 2);
        assert(pow2(m) * 2 == pow2(n));
    }
}

/// The word the levels spell (`read_bits`): level `i` is bit `i`.
pub fn pack_bits(levels: &[bool]) -> (v: u32)
    requires
        levels@.len() <= 32,
    ensures
        v == packed(levels@),
{
    let mut v: u64 = 0;
    let mut w: u64 = 1;
    let mut i: usize = 0;
    proof {
        lemma2_to64();
    }
    while i < levels.len()
        invariant
            levels@.len() <= 32,
            i <= levels@.len(),
            w == pow2(i as nat),
            v == packed(levels@.take(i as int)),
            pow2(i as nat) <= pow2(32),
            pow2(32) == 0x100000000,
        decreases levels.len() - i,
    {
        proof {
            lemma_packed_bound(levels@.take(i as int));
            lemma_pow2_unfold((i + 1) as nat);
            if i + 1 < 32 {
                lemma_pow2_strictly_increases((i + 1) as nat, 32);
            }
            assert(levels@.take((i + 1) as int).drop_last() =~= levels@.take(i as int));
        }
        if levels[i] {
            v = v + w;
        }
        w = w * 2;
        i = i + 1;
    }
    proof {
        assert(levels@.take(levels@.len() as int) =~= levels@);
        lemma_packed_bound(levels@);
        if levels@.len() < 32 {
            lemma_pow2_strictly_increases(levels@.len(), 32);
        }
    }
    v as u32
}

/// The levels that drive `val` onto `n` pins (`write_bits`): each pull
/// set from the next bit, low bit first.
pub fn bits_of(val: u32, n: usize) -> (levels: Vec<bool>)
    requires
        n <= 32,
    ensures
        levels@ == bit_levels(val as nat, n as nat),
{
    let mut levels: Vec<bool> = Vec::new();
    let mut v = val;
    let mut i: usize = 0;
    proof {
        lemma2_to64();
    }
    while i < n
        invariant
            i <= n,
            levels@.len() == i,
            forall|j: int| 0 <= j < i ==> #[trigger] levels@[j] == ((val as nat / pow2(j as nat)) % 2 == 1),
            v as nat == val as nat / pow2(i as nat),
        decreases n - i,
    {
        proof {
            lemma_pow2_pos(i as nat);
            lemma_pow2_unfold((i + 1) as nat);
            lemma_div_denominator(val as int, pow2(i as nat) as int, 2);
            assert(pow2(i as nat) * 2 == pow2((i + 1) as nat));
        }
        levels.push(v % 2 == 1);
        v = v / 2;
        i = i + 1;
    }
    assert(levels@ =~= bit_levels(val as nat, n as nat));
    levels
}

/// Every node's level as a `'0'`/`'1'` line over node ids, an id that
/// does not exist as `'0'`: what the golden generator writes.
pub fn state_line(exists: &[bool], high: &[bool]) -> (line: Vec<char>)
    requires
        exists@.len() == high@.len(),
    ensures
        line@.len() == exists@.len(),
        forall|i: int| 0 <= i < line@.len() ==> #[trigger] line@[i] == if exists@[i] && high@[i] { '1' } else { '0' },
{
    let mut line: Vec<char> = Vec::new();
    let mut i: usize = 0;
    while i < exists.len()
        invariant
            exists@.len() == high@.len(),
            i <= exists@.len(),
            line@.len() == i,
            forall|j: int| 0 <= j < i ==> #[trigger] line@[j] == if exists@[j] && high@[j] { '1' } else { '0' },
        decreases exists.len() - i,
    {
        line.push(if exists[i] && high[i] { '1' } else { '0' });
        i = i + 1;
    }
    line
}

} // verus!
