//! The cross-chip comparison: a recorded pin stream beside this chip's
//! core run through the same script, every differing field classified
//! by a named rule. A difference no rule names is loud.
//!
//! - `Stack`: the address differs, both in page 1, by exactly the two
//!   dies' stack-pointer offset in the low byte (silicon leaves S
//!   undefined at power-on, and the two simulations settle it apart).
//! - `SLeak`: the same offset in page 0, allowed only where the caller
//!   says the program copies S into an index register.
//! - `WritePhi1`: the data byte differs on the phi1 half of a write
//!   cycle, where nothing is serviced and the world drives nothing.
//! - `Data`: a serviced data byte differs. Loud.
//! - any other field by its name: loud; and a length mismatch.

use vstd::prelude::*;

verus! {

/// One half-cycle at the pins: the frame counter, the clock phase, the
/// buses, and the control lines.
#[derive(Clone, Copy, Debug, PartialEq, Eq, Structural)]
pub struct PinFrame {
    pub h: u64,
    pub clk0: bool,
    pub ab: u16,
    pub db: u8,
    pub rw: bool,
    pub sync: bool,
    pub res: bool,
    pub irq: bool,
    pub nmi: bool,
    pub rdy: bool,
    pub so: bool,
}

impl PinFrame {
    /// The frame of nothing: every field zero or low.
    pub open spec fn blank() -> PinFrame {
        PinFrame {
            h: 0,
            clk0: false,
            ab: 0,
            db: 0,
            rw: false,
            sync: false,
            res: false,
            irq: false,
            nmi: false,
            rdy: false,
            so: false,
        }
    }

    /// The address's page (its high byte).
    pub open spec fn page(self) -> int {
        (self.ab / 256) as int
    }

    /// The address's low byte.
    pub open spec fn low(self) -> int {
        (self.ab % 256) as int
    }
}

impl Default for PinFrame {
    fn default() -> (f: PinFrame)
        ensures
            f == PinFrame::blank(),
    {
        PinFrame {
            h: 0,
            clk0: false,
            ab: 0,
            db: 0,
            rw: false,
            sync: false,
            res: false,
            irq: false,
            nmi: false,
            rdy: false,
            so: false,
        }
    }
}

/// The named classes of a difference.
#[derive(Clone, Copy, Debug, PartialEq, Eq, Structural)]
pub enum Class {
    Stack,
    SLeak,
    WritePhi1,
    Data,
    Ab,
    H,
    Clk0,
    Rw,
    Sync,
    Res,
    Irq,
    Nmi,
    Rdy,
    So,
    Length,
}

/// The number of classes.
pub const CLASSES: usize = 15;

impl Class {
    /// The class's slot in a report's counts.
    pub open spec fn slot(self) -> int {
        match self {
            Class::Stack => 0,
            Class::SLeak => 1,
            Class::WritePhi1 => 2,
            Class::Data => 3,
            Class::Ab => 4,
            Class::H => 5,
            Class::Clk0 => 6,
            Class::Rw => 7,
            Class::Sync => 8,
            Class::Res => 9,
            Class::Irq => 10,
            Class::Nmi => 11,
            Class::Rdy => 12,
            Class::So => 13,
            Class::Length => 14,
        }
    }

    /// The three classes a comparison accepts by rule: the stack page, the
    /// S leak, the write's phi1 byte. Every other class is loud.
    pub open spec fn is_named_rule(self) -> bool {
        self == Class::Stack || self == Class::SLeak || self == Class::WritePhi1
    }

    pub fn index(self) -> (i: usize)
        ensures
            i == self.slot(),
            i < CLASSES,
    {
        match self {
            Class::Stack => 0,
            Class::SLeak => 1,
            Class::WritePhi1 => 2,
            Class::Data => 3,
            Class::Ab => 4,
            Class::H => 5,
            Class::Clk0 => 6,
            Class::Rw => 7,
            Class::Sync => 8,
            Class::Res => 9,
            Class::Irq => 10,
            Class::Nmi => 11,
            Class::Rdy => 12,
            Class::So => 13,
            Class::Length => 14,
        }
    }

    /// The class's name as comparisons print it.
    pub fn name(self) -> (s: &'static str)
        ensures
            self == Class::Stack ==> s == "stack",
            self == Class::SLeak ==> s == "s-leak",
            self == Class::WritePhi1 ==> s == "write-phi1",
            self == Class::Data ==> s == "data",
            self == Class::Ab ==> s == "ab",
            self == Class::H ==> s == "h",
            self == Class::Clk0 ==> s == "clk0",
            self == Class::Rw ==> s == "rw",
            self == Class::Sync ==> s == "sync",
            self == Class::Res ==> s == "res",
            self == Class::Irq ==> s == "irq",
            self == Class::Nmi ==> s == "nmi",
            self == Class::Rdy ==> s == "rdy",
            self == Class::So ==> s == "so",
            self == Class::Length ==> s == "length",
    {
        match self {
            Class::Stack => "stack",
            Class::SLeak => "s-leak",
            Class::WritePhi1 => "write-phi1",
            Class::Data => "data",
            Class::Ab => "ab",
            Class::H => "h",
            Class::Clk0 => "clk0",
            Class::Rw => "rw",
            Class::Sync => "sync",
            Class::Res => "res",
            Class::Irq => "irq",
            Class::Nmi => "nmi",
            Class::Rdy => "rdy",
            Class::So => "so",
            Class::Length => "length",
        }
    }
}

/// A frame carrying at least one loud class, in full.
#[derive(Clone, Debug)]
pub struct Loud {
    pub h: usize,
    pub classes: Vec<Class>,
    pub expected: PinFrame,
    pub got: PinFrame,
}

impl Loud {
    pub open spec fn view(self) -> (int, Seq<Class>, PinFrame, PinFrame) {
        (self.h as int, self.classes@, self.expected, self.got)
    }
}

/// The counts per class (by `Class::index`), the loud frames in order,
/// and the number of frames compared.
#[derive(Clone, Debug)]
pub struct Report {
    pub counts: Vec<usize>,
    pub loud: Vec<Loud>,
    pub frames: usize,
}

impl Report {
    /// How many frames carried `class` (the length class: one when the
    /// streams' lengths differ).
    pub fn count(&self, class: Class) -> (n: usize)
        requires
            self.counts@.len() == CLASSES,
        ensures
            n == self.counts@[class.slot()],
    {
        self.counts[class.index()]
    }
}

/// The two addresses lie in the same page and differ by `offset` in the
/// low byte (the recording's less the chip's, modulo 256).
pub open spec fn same_page_offset(e: PinFrame, g: PinFrame, offset: u8) -> bool {
    e.page() == g.page() && (e.low() - g.low() - offset) % 256 == 0
}

/// The address difference's class, if the addresses differ.
pub open spec fn ab_class(e: PinFrame, g: PinFrame, offset: u8, s_leak_ok: bool) -> Option<Class> {
    if e.ab == g.ab {
        None
    } else if e.page() == 1 && same_page_offset(e, g, offset) {
        Some(Class::Stack)
    } else if s_leak_ok && e.page() == 0 && same_page_offset(e, g, offset) {
        Some(Class::SLeak)
    } else {
        Some(Class::Ab)
    }
}

/// The data difference's class, if the bytes differ: the write's phi1
/// byte, or serviced data.
pub open spec fn db_class(e: PinFrame, g: PinFrame) -> Option<Class> {
    if e.db == g.db {
        None
    } else if !e.rw && !e.clk0 {
        Some(Class::WritePhi1)
    } else {
        Some(Class::Data)
    }
}

pub open spec fn opt_seq(c: Option<Class>) -> Seq<Class> {
    match c {
        Some(x) => seq![x],
        None => Seq::empty(),
    }
}

pub open spec fn flag(differs: bool, c: Class) -> Seq<Class> {
    if differs {
        seq![c]
    } else {
        Seq::empty()
    }
}

/// Every class one frame pair carries, in the order comparisons list
/// them: address, data, then the other fields by name.
pub open spec fn frame_classes(e: PinFrame, g: PinFrame, offset: u8, s_leak_ok: bool) -> Seq<Class> {
    opt_seq(ab_class(e, g, offset, s_leak_ok)) + opt_seq(db_class(e, g)) + flag(e.h != g.h, Class::H) + flag(
        e.clk0 != g.clk0,
        Class::Clk0,
    ) + flag(e.rw != g.rw, Class::Rw) + flag(e.sync != g.sync, Class::Sync) + flag(e.res != g.res, Class::Res)
        + flag(e.irq != g.irq, Class::Irq) + flag(e.nmi != g.nmi, Class::Nmi) + flag(e.rdy != g.rdy, Class::Rdy)
        + flag(e.so != g.so, Class::So)
}

/// Whether the frame pair carries class `c`.
pub open spec fn carries(e: PinFrame, g: PinFrame, offset: u8, s_leak_ok: bool, c: Class) -> bool {
    ||| ab_class(e, g, offset, s_leak_ok) == Some(c)
    ||| db_class(e, g) == Some(c)
    ||| c == Class::H && e.h != g.h
    ||| c == Class::Clk0 && e.clk0 != g.clk0
    ||| c == Class::Rw && e.rw != g.rw
    ||| c == Class::Sync && e.sync != g.sync
    ||| c == Class::Res && e.res != g.res
    ||| c == Class::Irq && e.irq != g.irq
    ||| c == Class::Nmi && e.nmi != g.nmi
    ||| c == Class::Rdy && e.rdy != g.rdy
    ||| c == Class::So && e.so != g.so
}

/// Whether the frame pair carries a class no rule names: an address
/// difference that is neither the stack page nor an allowed S leak,
/// serviced data, or any other field.
pub open spec fn is_loud(e: PinFrame, g: PinFrame, offset: u8, s_leak_ok: bool) -> bool {
    ||| ab_class(e, g, offset, s_leak_ok) == Some(Class::Ab)
    ||| db_class(e, g) == Some(Class::Data)
    ||| e.h != g.h
    ||| e.clk0 != g.clk0
    ||| e.rw != g.rw
    ||| e.sync != g.sync
    ||| e.res != g.res
    ||| e.irq != g.irq
    ||| e.nmi != g.nmi
    ||| e.rdy != g.rdy
    ||| e.so != g.so
}

/// The number of the first `n` frame pairs that carry class `c`.
pub open spec fn frames_with(e: Seq<PinFrame>, g: Seq<PinFrame>, offset: u8, s_leak_ok: bool, c: Class, n: nat) -> nat
    decreases n,
{
    if n == 0 {
        0
    } else {
        frames_with(e, g, offset, s_leak_ok, c, (n - 1) as nat) + if carries(e[n - 1], g[n - 1], offset, s_leak_ok, c) {
            1nat
        } else {
            0nat
        }
    }
}

/// The loud entries of the first `n` frame pairs, in order.
pub open spec fn loud_frames(e: Seq<PinFrame>, g: Seq<PinFrame>, offset: u8, s_leak_ok: bool, n: nat) -> Seq<
    (int, Seq<Class>, PinFrame, PinFrame),
>
    decreases n,
{
    if n == 0 {
        Seq::empty()
    } else {
        let i = n - 1;
        let prev = loud_frames(e, g, offset, s_leak_ok, (n - 1) as nat);
        if is_loud(e[i], g[i], offset, s_leak_ok) {
            prev.push((i, frame_classes(e[i], g[i], offset, s_leak_ok), e[i], g[i]))
        } else {
            prev
        }
    }
}

pub open spec fn min_len(a: int, b: int) -> int {
    if a <= b {
        a
    } else {
        b
    }
}

/// The frame at `i` of a stream, or the blank frame past its end.
pub open spec fn frame_or_blank(s: Seq<PinFrame>, i: int) -> PinFrame {
    if 0 <= i < s.len() {
        s[i]
    } else {
        PinFrame::blank()
    }
}

/// The report a classification owes: the frames compared, every class's
/// count, the loud frames, and one `Length` entry when the streams'
/// lengths differ.
pub open spec fn report_matches(r: Report, e: Seq<PinFrame>, g: Seq<PinFrame>, offset: u8, s_leak_ok: bool) -> bool {
    let n = min_len(e.len() as int, g.len() as int);
    let lens_differ = e.len() != g.len();
    &&& r.frames == n
    &&& r.counts@.len() == CLASSES
    &&& forall|c: Class|
        #![trigger r.counts@[c.slot()]]
        r.counts@[c.slot()] == frames_with(e, g, offset, s_leak_ok, c, n as nat) + if c == Class::Length
            && lens_differ {
            1nat
        } else {
            0nat
        }
    &&& r.loud@.map_values(|l: Loud| l.view()) == if lens_differ {
        loud_frames(e, g, offset, s_leak_ok, n as nat).push(
            (n, seq![Class::Length], frame_or_blank(e, n), frame_or_blank(g, n)),
        )
    } else {
        loud_frames(e, g, offset, s_leak_ok, n as nat)
    }
}

/// `i` is the recording's first page-1 access.
pub open spec fn is_first_stack_access(e: Seq<PinFrame>, i: int) -> bool {
    &&& 0 <= i < e.len()
    &&& e[i].page() == 1
    &&& forall|j: int| 0 <= j < i ==> (#[trigger] e[j]).page() != 1
}

/// The offset the two streams' first stack access shows: the
/// recording's low byte less the chip's at the same frame, modulo 256,
/// when the recording touches page 1 and the chip is in page 1 there.
pub open spec fn stack_offset_of(e: Seq<PinFrame>, g: Seq<PinFrame>) -> Option<u8> {
    if exists|i: int| #[trigger] is_first_stack_access(e, i) {
        let i = choose|i: int| #[trigger] is_first_stack_access(e, i);
        if i < g.len() && g[i].page() == 1 {
            Some(((e[i].low() - g[i].low() + 256) % 256) as u8)
        } else {
            None
        }
    } else {
        None
    }
}

/// The two streams' stack-pointer offset, read off their first stack
/// access: the recording's low byte minus this chip's, at the same h.
/// None if the recording never touches page 1, or the chip is elsewhere
/// at that moment (which the caller then sees as a loud `Ab`).
pub fn stack_offset(expected: &[PinFrame], got: &[PinFrame]) -> (r: Option<u8>)
    ensures
        r == stack_offset_of(expected@, got@),
{
    let mut i: usize = 0;
    while i < expected.len()
        invariant
            i <= expected@.len(),
            forall|j: int| 0 <= j < i ==> (#[trigger] expected@[j]).page() != 1,
        ensures
            i <= expected@.len(),
            forall|j: int| 0 <= j < i ==> (#[trigger] expected@[j]).page() != 1,
            i < expected@.len() ==> expected@[i as int].page() == 1,
        decreases expected.len() - i,
    {
        if expected[i].ab / 256 == 1 {
            break;
        }
        i = i + 1;
    }
    if i == expected.len() {
        assert forall|k: int| !is_first_stack_access(expected@, k) by {
            if 0 <= k < expected@.len() {
                assert(expected@[k].page() != 1);
            }
        }
        return None;
    }
    assert(is_first_stack_access(expected@, i as int));
    proof {
        let c = choose|k: int| #[trigger] is_first_stack_access(expected@, k);
        if c < i {
            assert(expected@[c].page() != 1);
        } else if c > i {
            assert(expected@[i as int].page() != 1);
        }
    }
    if i < got.len() && got[i].ab / 256 == 1 {
        let a = (expected[i].ab % 256) as u8;
        let b = (got[i].ab % 256) as u8;
        Some(a.wrapping_sub(b))
    } else {
        None
    }
}

fn ab_class_of(e: &PinFrame, g: &PinFrame, offset: u8, s_leak_ok: bool) -> (c: Option<Class>)
    ensures
        c == ab_class(*e, *g, offset, s_leak_ok),
{
    if e.ab == g.ab {
        return None;
    }
    let same = e.ab / 256 == g.ab / 256 && ((e.ab % 256) as u8).wrapping_sub((g.ab % 256) as u8) == offset;
    assert(same <==> same_page_offset(*e, *g, offset));
    if e.ab / 256 == 1 && same {
        Some(Class::Stack)
    } else if s_leak_ok && e.ab / 256 == 0 && same {
        Some(Class::SLeak)
    } else {
        Some(Class::Ab)
    }
}

fn db_class_of(e: &PinFrame, g: &PinFrame) -> (c: Option<Class>)
    ensures
        c == db_class(*e, *g),
{
    if e.db == g.db {
        None
    } else if !e.rw && !e.clk0 {
        Some(Class::WritePhi1)
    } else {
        Some(Class::Data)
    }
}

fn push_opt(v: &mut Vec<Class>, c: Option<Class>)
    ensures
        final(v)@ == old(v)@ + opt_seq(c),
{
    match c {
        Some(x) => {
            v.push(x);
            assert(final(v)@ =~= old(v)@ + opt_seq(c));
        },
        None => {
            assert(old(v)@ =~= old(v)@ + opt_seq(c));
        },
    }
}

fn push_flag(v: &mut Vec<Class>, differs: bool, c: Class)
    ensures
        final(v)@ == old(v)@ + flag(differs, c),
{
    if differs {
        v.push(c);
        assert(final(v)@ =~= old(v)@ + flag(differs, c));
    } else {
        assert(old(v)@ =~= old(v)@ + flag(differs, c));
    }
}

/// The classes of one frame pair, in the order comparisons list them.
fn frame_classes_of(e: &PinFrame, g: &PinFrame, offset: u8, s_leak_ok: bool) -> (v: Vec<Class>)
    ensures
        v@ == frame_classes(*e, *g, offset, s_leak_ok),
{
    let mut v: Vec<Class> = Vec::new();
    assert(v@ =~= Seq::<Class>::empty());
    push_opt(&mut v, ab_class_of(e, g, offset, s_leak_ok));
    assert(v@ =~= opt_seq(ab_class(*e, *g, offset, s_leak_ok)));
    push_opt(&mut v, db_class_of(e, g));
    push_flag(&mut v, e.h != g.h, Class::H);
    push_flag(&mut v, e.clk0 != g.clk0, Class::Clk0);
    push_flag(&mut v, e.rw != g.rw, Class::Rw);
    push_flag(&mut v, e.sync != g.sync, Class::Sync);
    push_flag(&mut v, e.res != g.res, Class::Res);
    push_flag(&mut v, e.irq != g.irq, Class::Irq);
    push_flag(&mut v, e.nmi != g.nmi, Class::Nmi);
    push_flag(&mut v, e.rdy != g.rdy, Class::Rdy);
    push_flag(&mut v, e.so != g.so, Class::So);
    v
}

/// One more at `k`.
fn bump(counts: &mut Vec<usize>, k: usize)
    requires
        k < old(counts)@.len(),
        old(counts)@[k as int] < usize::MAX,
    ensures
        final(counts)@ == old(counts)@.update(k as int, (old(counts)@[k as int] + 1) as usize),
{
    let c = counts[k];
    counts.set(k, c + 1);
}

fn carries_pair(e: &PinFrame, g: &PinFrame, offset: u8, s_leak_ok: bool, c: Class) -> (b: bool)
    ensures
        b == carries(*e, *g, offset, s_leak_ok, c),
{
    let by_ab = match ab_class_of(e, g, offset, s_leak_ok) {
        Some(x) => x == c,
        None => false,
    };
    let by_db = match db_class_of(e, g) {
        Some(x) => x == c,
        None => false,
    };
    let by_field = match c {
        Class::H => e.h != g.h,
        Class::Clk0 => e.clk0 != g.clk0,
        Class::Rw => e.rw != g.rw,
        Class::Sync => e.sync != g.sync,
        Class::Res => e.res != g.res,
        Class::Irq => e.irq != g.irq,
        Class::Nmi => e.nmi != g.nmi,
        Class::Rdy => e.rdy != g.rdy,
        Class::So => e.so != g.so,
        _ => false,
    };
    by_ab || by_db || by_field
}

/// The class in slot `k`.
fn class_at(k: usize) -> (c: Class)
    requires
        k < CLASSES,
    ensures
        c.slot() == k,
{
    if k == 0 {
        Class::Stack
    } else if k == 1 {
        Class::SLeak
    } else if k == 2 {
        Class::WritePhi1
    } else if k == 3 {
        Class::Data
    } else if k == 4 {
        Class::Ab
    } else if k == 5 {
        Class::H
    } else if k == 6 {
        Class::Clk0
    } else if k == 7 {
        Class::Rw
    } else if k == 8 {
        Class::Sync
    } else if k == 9 {
        Class::Res
    } else if k == 10 {
        Class::Irq
    } else if k == 11 {
        Class::Nmi
    } else if k == 12 {
        Class::Rdy
    } else if k == 13 {
        Class::So
    } else {
        Class::Length
    }
}

/// One frame pair's classes tallied: each class the pair carries
/// counted once.
fn tally(counts: &mut Vec<usize>, e: &PinFrame, g: &PinFrame, offset: u8, s_leak_ok: bool)
    requires
        old(counts)@.len() == CLASSES,
        forall|k: int| 0 <= k < CLASSES ==> #[trigger] old(counts)@[k] < usize::MAX,
    ensures
        final(counts)@.len() == CLASSES,
        forall|c: Class|
            #![trigger final(counts)@[c.slot()]]
            final(counts)@[c.slot()] == old(counts)@[c.slot()] + if carries(*e, *g, offset, s_leak_ok, c) {
                1int
            } else {
                0int
            },
        forall|k: int| 0 <= k < CLASSES ==> #[trigger] final(counts)@[k] <= old(counts)@[k] + 1,
{
    let ghost start = counts@;
    let mut k: usize = 0;
    while k < CLASSES
        invariant
            k <= CLASSES,
            counts@.len() == CLASSES,
            forall|j: int| 0 <= j < CLASSES ==> #[trigger] start[j] < usize::MAX,
            forall|c: Class|
                #![trigger counts@[c.slot()]]
                c.slot() < k ==> counts@[c.slot()] == start[c.slot()] + if carries(*e, *g, offset, s_leak_ok, c) {
                    1int
                } else {
                    0int
                },
            forall|j: int| k <= j < CLASSES ==> #[trigger] counts@[j] == start[j],
            forall|j: int| 0 <= j < CLASSES ==> #[trigger] counts@[j] <= start[j] + 1,
        decreases CLASSES - k,
    {
        let c = class_at(k);
        if carries_pair(e, g, offset, s_leak_ok, c) {
            bump(counts, k);
        }
        k = k + 1;
    }
}

fn is_loud_pair(e: &PinFrame, g: &PinFrame, offset: u8, s_leak_ok: bool) -> (b: bool)
    ensures
        b == is_loud(*e, *g, offset, s_leak_ok),
{
    let ab = ab_class_of(e, g, offset, s_leak_ok);
    let db = db_class_of(e, g);
    let ab_loud = match ab {
        Some(Class::Ab) => true,
        _ => false,
    };
    let db_loud = match db {
        Some(Class::Data) => true,
        _ => false,
    };
    ab_loud || db_loud || e.h != g.h || e.clk0 != g.clk0 || e.rw != g.rw || e.sync != g.sync || e.res != g.res
        || e.irq != g.irq || e.nmi != g.nmi || e.rdy != g.rdy || e.so != g.so
}

proof fn lemma_length_never_carried(e: Seq<PinFrame>, g: Seq<PinFrame>, offset: u8, s_leak_ok: bool, n: nat)
    ensures
        frames_with(e, g, offset, s_leak_ok, Class::Length, n) == 0,
    decreases n,
{
    if n > 0 {
        lemma_length_never_carried(e, g, offset, s_leak_ok, (n - 1) as nat);
    }
}

/// Every differing field of the two streams classified, frame by frame
/// over the frames both hold: the counts per class, and in full every
/// frame that carries a class no rule names; a length mismatch is one
/// more loud entry at the first frame only one stream holds.
pub fn classify(expected: &[PinFrame], got: &[PinFrame], stack_offset: u8, s_leak_ok: bool) -> (r: Report)
    ensures
        report_matches(r, expected@, got@, stack_offset, s_leak_ok),
{
    let n = if expected.len() <= got.len() {
        expected.len()
    } else {
        got.len()
    };
    let ghost e = expected@;
    let ghost gs = got@;
    let mut counts: Vec<usize> = Vec::new();
    let mut k: usize = 0;
    while k < CLASSES
        invariant
            k <= CLASSES,
            counts@.len() == k,
            forall|j: int| 0 <= j < k ==> #[trigger] counts@[j] == 0,
        decreases CLASSES - k,
    {
        counts.push(0);
        k = k + 1;
    }
    let mut loud: Vec<Loud> = Vec::new();
    let mut i: usize = 0;
    while i < n
        invariant
            n == min_len(e.len() as int, gs.len() as int),
            e == expected@,
            gs == got@,
            i <= n,
            counts@.len() == CLASSES,
            forall|c: Class|
                #![trigger counts@[c.slot()]]
                counts@[c.slot()] == frames_with(e, gs, stack_offset, s_leak_ok, c, i as nat),
            forall|j: int| 0 <= j < CLASSES ==> #[trigger] counts@[j] <= i,
            loud@.map_values(|l: Loud| l.view()) == loud_frames(e, gs, stack_offset, s_leak_ok, i as nat),
        decreases n - i,
    {
        let ef = &expected[i];
        let gf = &got[i];
        tally(&mut counts, ef, gf, stack_offset, s_leak_ok);
        if is_loud_pair(ef, gf, stack_offset, s_leak_ok) {
            let classes = frame_classes_of(ef, gf, stack_offset, s_leak_ok);
            let ghost before = loud@;
            loud.push(Loud { h: i, classes, expected: *ef, got: *gf });
            assert(loud@.map_values(|l: Loud| l.view()) =~= before.map_values(|l: Loud| l.view()).push(
                (i as int, frame_classes(e[i as int], gs[i as int], stack_offset, s_leak_ok), e[i as int], gs[i as int]),
            ));
        }
        i = i + 1;
    }
    proof {
        lemma_length_never_carried(e, gs, stack_offset, s_leak_ok, n as nat);
    }
    if expected.len() != got.len() {
        assert(counts@[Class::Length.slot()] == 0);
        bump(&mut counts, 14);
        let ef = if n < expected.len() {
            expected[n]
        } else {
            PinFrame::default()
        };
        let gf = if n < got.len() {
            got[n]
        } else {
            PinFrame::default()
        };
        let mut cl: Vec<Class> = Vec::new();
        cl.push(Class::Length);
        assert(cl@ =~= seq![Class::Length]);
        let ghost before = loud@;
        loud.push(Loud { h: n, classes: cl, expected: ef, got: gf });
        assert(loud@.map_values(|l: Loud| l.view()) =~= before.map_values(|l: Loud| l.view()).push(
            (n as int, seq![Class::Length], frame_or_blank(e, n as int), frame_or_blank(gs, n as int)),
        ));
        assert forall|c: Class| #![trigger counts@[c.slot()]]
            counts@[c.slot()] == frames_with(e, gs, stack_offset, s_leak_ok, c, n as nat) + if c == Class::Length {
                1nat
            } else {
                0nat
            } by {
            if c != Class::Length {
                assert(c.slot() != 14);
            }
        }
    }
    Report { counts, loud, frames: n }
}

// ---------------------------------------------------------------------
// Laws.
// ---------------------------------------------------------------------

/// A stream compared with itself carries no class: every count is zero
/// and no frame is loud.
pub proof fn law_identical_streams_are_quiet(e: Seq<PinFrame>, offset: u8, s_leak_ok: bool, n: nat)
    ensures
        forall|c: Class| #[trigger] frames_with(e, e, offset, s_leak_ok, c, n) == 0,
        loud_frames(e, e, offset, s_leak_ok, n) == Seq::<(int, Seq<Class>, PinFrame, PinFrame)>::empty(),
    decreases n,
{
    if n > 0 {
        law_identical_streams_are_quiet(e, offset, s_leak_ok, (n - 1) as nat);
        assert forall|c: Class| #[trigger] frames_with(e, e, offset, s_leak_ok, c, n) == 0 by {
            assert(frames_with(e, e, offset, s_leak_ok, c, (n - 1) as nat) == 0);
        }
    }
}

proof fn lemma_add_contains(a: Seq<Class>, b: Seq<Class>, c: Class)
    ensures
        (a + b).contains(c) <==> a.contains(c) || b.contains(c),
{
    if (a + b).contains(c) {
        let k = choose|k: int| 0 <= k < (a + b).len() && (a + b)[k] == c;
        if k < a.len() {
            assert(a[k] == c);
        } else {
            assert(b[k - a.len()] == c);
        }
    }
    if a.contains(c) {
        let k = choose|k: int| 0 <= k < a.len() && a[k] == c;
        assert((a + b)[k] == c);
    }
    if b.contains(c) {
        let k = choose|k: int| 0 <= k < b.len() && b[k] == c;
        assert((a + b)[a.len() + k] == c);
    }
}

proof fn lemma_opt_contains(o: Option<Class>, c: Class)
    ensures
        opt_seq(o).contains(c) <==> o == Some(c),
{
    if o is Some {
        assert(opt_seq(o)[0] == o->0);
    }
}

proof fn lemma_flag_contains(d: bool, x: Class, c: Class)
    ensures
        flag(d, x).contains(c) <==> d && x == c,
{
    if d {
        assert(flag(d, x)[0] == x);
    }
}

/// The classifier's rules in plain terms. Differing addresses both in
/// page 1 whose low bytes differ by the offset (recording less chip,
/// modulo 256) are the stack page, and quiet; the same in page 0 are the
/// S leak where allowed, quiet, and a loud address difference
/// otherwise; addresses differing in any other way are loud. A data
/// byte differing on a write's phi1 half (R/W low, clk0 low) is quiet,
/// and on any other half it is serviced data, loud. A difference in any
/// other field is loud under its own name.
pub proof fn law_classifier_rules(e: PinFrame, g: PinFrame, offset: u8, s_leak_ok: bool)
    ensures
        ({
            let off_ok = (e.ab % 256 - g.ab % 256 - offset) % 256 == 0;
            let same_page = e.ab / 256 == g.ab / 256;
            &&& e.ab != g.ab && e.ab / 256 == 1 && same_page && off_ok ==> carries(e, g, offset, s_leak_ok, Class::Stack)
                && !carries(e, g, offset, s_leak_ok, Class::Ab)
            &&& e.ab != g.ab && e.ab / 256 == 0 && same_page && off_ok && s_leak_ok ==> carries(e, g, offset, s_leak_ok, Class::SLeak)
                && !carries(e, g, offset, s_leak_ok, Class::Ab)
            &&& e.ab != g.ab && e.ab / 256 == 0 && same_page && off_ok && !s_leak_ok ==> carries(e, g, offset, s_leak_ok, Class::Ab)
                && is_loud(e, g, offset, s_leak_ok)
            &&& e.ab != g.ab && !(same_page && off_ok) ==> carries(e, g, offset, s_leak_ok, Class::Ab)
                && is_loud(e, g, offset, s_leak_ok)
            &&& e.ab != g.ab && e.ab / 256 > 1 ==> carries(e, g, offset, s_leak_ok, Class::Ab)
                && is_loud(e, g, offset, s_leak_ok)
            &&& e.db != g.db && !e.rw && !e.clk0 ==> carries(e, g, offset, s_leak_ok, Class::WritePhi1)
                && !carries(e, g, offset, s_leak_ok, Class::Data)
            &&& e.db != g.db && (e.rw || e.clk0) ==> carries(e, g, offset, s_leak_ok, Class::Data)
                && is_loud(e, g, offset, s_leak_ok)
            &&& e.h != g.h ==> carries(e, g, offset, s_leak_ok, Class::H) && is_loud(e, g, offset, s_leak_ok)
            &&& e.clk0 != g.clk0 ==> carries(e, g, offset, s_leak_ok, Class::Clk0) && is_loud(e, g, offset, s_leak_ok)
            &&& e.rw != g.rw ==> carries(e, g, offset, s_leak_ok, Class::Rw) && is_loud(e, g, offset, s_leak_ok)
            &&& e.sync != g.sync ==> carries(e, g, offset, s_leak_ok, Class::Sync) && is_loud(e, g, offset, s_leak_ok)
            &&& e.res != g.res ==> carries(e, g, offset, s_leak_ok, Class::Res) && is_loud(e, g, offset, s_leak_ok)
            &&& e.irq != g.irq ==> carries(e, g, offset, s_leak_ok, Class::Irq) && is_loud(e, g, offset, s_leak_ok)
            &&& e.nmi != g.nmi ==> carries(e, g, offset, s_leak_ok, Class::Nmi) && is_loud(e, g, offset, s_leak_ok)
            &&& e.rdy != g.rdy ==> carries(e, g, offset, s_leak_ok, Class::Rdy) && is_loud(e, g, offset, s_leak_ok)
            &&& e.so != g.so ==> carries(e, g, offset, s_leak_ok, Class::So) && is_loud(e, g, offset, s_leak_ok)
            &&& e == g ==> !is_loud(e, g, offset, s_leak_ok)
        }),
{
}

/// The counts and the loud list agree with the listed classes: a frame
/// pair carries exactly the classes `frame_classes` lists, and it is
/// loud exactly when it lists a class that is not a named rule.
pub proof fn law_classes_listed(e: PinFrame, g: PinFrame, offset: u8, s_leak_ok: bool)
    ensures
        forall|c: Class| #[trigger] carries(e, g, offset, s_leak_ok, c) <==> frame_classes(e, g, offset, s_leak_ok).contains(c),
        is_loud(e, g, offset, s_leak_ok) <==> exists|c: Class|
            #[trigger] frame_classes(e, g, offset, s_leak_ok).contains(c) && !c.is_named_rule(),
{
    let x0 = opt_seq(ab_class(e, g, offset, s_leak_ok));
    let x1 = opt_seq(db_class(e, g));
    let x2 = flag(e.h != g.h, Class::H);
    let x3 = flag(e.clk0 != g.clk0, Class::Clk0);
    let x4 = flag(e.rw != g.rw, Class::Rw);
    let x5 = flag(e.sync != g.sync, Class::Sync);
    let x6 = flag(e.res != g.res, Class::Res);
    let x7 = flag(e.irq != g.irq, Class::Irq);
    let x8 = flag(e.nmi != g.nmi, Class::Nmi);
    let x9 = flag(e.rdy != g.rdy, Class::Rdy);
    let x10 = flag(e.so != g.so, Class::So);
    let p1 = x0 + x1;
    let p2 = p1 + x2;
    let p3 = p2 + x3;
    let p4 = p3 + x4;
    let p5 = p4 + x5;
    let p6 = p5 + x6;
    let p7 = p6 + x7;
    let p8 = p7 + x8;
    let p9 = p8 + x9;
    let s = p9 + x10;
    assert(s == frame_classes(e, g, offset, s_leak_ok));
    assert forall|c: Class| #[trigger] carries(e, g, offset, s_leak_ok, c) <==> s.contains(c) by {
        lemma_opt_contains(ab_class(e, g, offset, s_leak_ok), c);
        lemma_opt_contains(db_class(e, g), c);
        lemma_flag_contains(e.h != g.h, Class::H, c);
        lemma_flag_contains(e.clk0 != g.clk0, Class::Clk0, c);
        lemma_flag_contains(e.rw != g.rw, Class::Rw, c);
        lemma_flag_contains(e.sync != g.sync, Class::Sync, c);
        lemma_flag_contains(e.res != g.res, Class::Res, c);
        lemma_flag_contains(e.irq != g.irq, Class::Irq, c);
        lemma_flag_contains(e.nmi != g.nmi, Class::Nmi, c);
        lemma_flag_contains(e.rdy != g.rdy, Class::Rdy, c);
        lemma_flag_contains(e.so != g.so, Class::So, c);
        lemma_add_contains(x0, x1, c);
        lemma_add_contains(p1, x2, c);
        lemma_add_contains(p2, x3, c);
        lemma_add_contains(p3, x4, c);
        lemma_add_contains(p4, x5, c);
        lemma_add_contains(p5, x6, c);
        lemma_add_contains(p6, x7, c);
        lemma_add_contains(p7, x8, c);
        lemma_add_contains(p8, x9, c);
        lemma_add_contains(p9, x10, c);
    }
    if is_loud(e, g, offset, s_leak_ok) {
        let c = if ab_class(e, g, offset, s_leak_ok) == Some(Class::Ab) {
            Class::Ab
        } else if db_class(e, g) == Some(Class::Data) {
            Class::Data
        } else if e.h != g.h {
            Class::H
        } else if e.clk0 != g.clk0 {
            Class::Clk0
        } else if e.rw != g.rw {
            Class::Rw
        } else if e.sync != g.sync {
            Class::Sync
        } else if e.res != g.res {
            Class::Res
        } else if e.irq != g.irq {
            Class::Irq
        } else if e.nmi != g.nmi {
            Class::Nmi
        } else if e.rdy != g.rdy {
            Class::Rdy
        } else {
            Class::So
        };
        assert(carries(e, g, offset, s_leak_ok, c));
        assert(s.contains(c) && !c.is_named_rule());
    }
    if exists|c: Class| #[trigger] s.contains(c) && !c.is_named_rule() {
        let c = choose|c: Class| #[trigger] s.contains(c) && !c.is_named_rule();
        assert(carries(e, g, offset, s_leak_ok, c));
    }
}

/// The offset read off the first stack access makes that access a
/// stack-page difference (or no difference at all) under the classifier.
pub proof fn law_stack_offset_classifies_its_own_frame(e: Seq<PinFrame>, g: Seq<PinFrame>, s_leak_ok: bool)
    requires
        stack_offset_of(e, g) is Some,
    ensures
        ({
            let i = choose|i: int| #[trigger] is_first_stack_access(e, i);
            let o = stack_offset_of(e, g)->0;
            &&& 0 <= i < e.len() && i < g.len()
            &&& ab_class(e[i], g[i], o, s_leak_ok) is None || ab_class(e[i], g[i], o, s_leak_ok) == Some(Class::Stack)
        }),
{
}

} // verus!
