//! Events of the IsiBox photon counter: 26-bit times in ticks of 120 ps on
//! 16 photon channels and scan-signal channels (16 marks a scan line).
use vstd::prelude::*;
use crate::coincidence::{Photon, TempTdcData, is_photon, line_triggers, sync_points};
use vstd::relations::sorted_by;
use crate::error::Tp3ErrorKind;
use crate::packet::TDC_OVERFLOW;
use crate::tdc::{PeriodicTdcRef, edge_at, periodic_upt, read_edge};

verus! {

/// IsiBox times wrap after 2^26 ticks.
pub const ISI_OVERFLOW: u64 = 67_108_864;
/// Channel of the scan-line signal.
pub const SCAN_CHANNEL: u32 = 16;
/// How far (in ticks) a line may stray from the line time before it is repaired.
pub const LINE_TOLERANCE: u64 = 1_000;

/// One IsiBox event.
#[derive(Debug, Clone, Copy, PartialEq, Eq, Structural)]
pub struct IsiEvent {
    pub time: u64,
    pub channel: u32,
    pub spim_index: Option<u32>,
    pub spim_frame: Option<u32>,
    pub dt: Option<i16>,
}

/// Channel and time of a raw IsiBox word.
pub open spec fn isi_word(w: u32) -> (u32, u32) {
    ((w & 0xFC00_0000) >> 27u32, w & 0x03FF_FFFF)
}

/// Splits a raw word into its channel and its 26-bit time.
pub fn decode_isi_word(w: u32) -> (r: (u32, u32))
    ensures
        r == isi_word(w),
        r.1 < ISI_OVERFLOW,
        r.0 < 32,
{
    let channel = (w & 0xFC00_0000) >> 27u32;
    let time = w & 0x03FF_FFFF;
    assert(time < 0x0400_0000 && channel < 32) by (bit_vector)
        requires
            channel == (w & 0xFC00_0000) >> 27u32,
            time == w & 0x03FF_FFFF,
    ;
    (channel, time)
}

/// The little-endian word at `4 * i`.
pub open spec fn le_u32(d: Seq<u8>, i: int) -> u32 {
    (d[4 * i] as u32) | ((d[4 * i + 1] as u32) << 8u32) | ((d[4 * i + 2] as u32) << 16u32)
        | ((d[4 * i + 3] as u32) << 24u32)
}

/// The events of a raw IsiBox buffer: one little-endian word per event.
pub fn isi_events(d: &[u8]) -> (r: Vec<IsiEvent>)
    ensures
        r@.len() == d@.len() / 4,
        forall|i: int| 0 <= i < r@.len() ==> #[trigger] r@[i] == (IsiEvent {
            time: isi_word(le_u32(d@, i)).1 as u64,
            channel: isi_word(le_u32(d@, i)).0,
            spim_index: None,
            spim_frame: None,
            dt: None,
        }),
{
    let n = d.len() / 4;
    let mut out: Vec<IsiEvent> = Vec::new();
    let mut i: usize = 0;
    while i < n
        invariant
            n == d@.len() / 4,
            i <= n,
            out@.len() == i,
            forall|k: int| 0 <= k < i ==> #[trigger] out@[k] == (IsiEvent {
                time: isi_word(le_u32(d@, k)).1 as u64,
                channel: isi_word(le_u32(d@, k)).0,
                spim_index: None,
                spim_frame: None,
                dt: None,
            }),
        decreases n - i,
    {
        let len = d.len();
        assert(4 * i + 4 <= len) by (nonlinear_arith)
            requires
                i < n,
                n == len / 4,
        ;
        let o = 4 * i;
        let w = (d[o] as u32) | ((d[o + 1] as u32) << 8u32) | ((d[o + 2] as u32) << 16u32) | ((d[o + 3] as u32) << 24u32);
        let (channel, time) = decode_isi_word(w);
        out.push(IsiEvent { time: time as u64, channel, spim_index: None, spim_frame: None, dt: None });
        i = i + 1;
    }
    out
}

/// `a - b` on the 26-bit clock.
pub open spec fn sub_overflow(a: u64, b: u64) -> int {
    if a > b { (a - b) % (ISI_OVERFLOW as int) } else { (a + ISI_OVERFLOW - b) % (ISI_OVERFLOW as int) }
}

/// `a - b` on the 26-bit clock.
pub fn subtract_overflow(a: u64, b: u64) -> (r: u64)
    requires
        a < ISI_OVERFLOW,
        b < ISI_OVERFLOW,
    ensures
        r == sub_overflow(a, b),
        r < ISI_OVERFLOW,
{
    if a > b { (a - b) % ISI_OVERFLOW } else { (a + ISI_OVERFLOW - b) % ISI_OVERFLOW }
}

/// `a + b` on the 26-bit clock.
pub fn add_overflow(a: u64, b: u64) -> (r: u64)
    requires
        a < ISI_OVERFLOW,
        b < ISI_OVERFLOW,
    ensures
        r == (a + b) % (ISI_OVERFLOW as int),
{
    (a + b) % ISI_OVERFLOW
}

/// The time of the last scan-line event of `s`.
pub open spec fn last_line(s: Seq<IsiEvent>) -> Option<u64>
    decreases s.len(),
{
    if s.len() == 0 {
        None
    } else if s.last().channel == SCAN_CHANNEL {
        Some(s.last().time)
    } else {
        last_line(s.drop_last())
    }
}

/// The gaps between consecutive scan-line events that go forward in time.
pub open spec fn line_gaps(s: Seq<IsiEvent>) -> Seq<u64>
    decreases s.len(),
{
    if s.len() == 0 {
        Seq::empty()
    } else {
        let prev = line_gaps(s.drop_last());
        let e = s.last();
        match last_line(s.drop_last()) {
            Some(p) => if e.channel == SCAN_CHANNEL && e.time > p { prev.push((e.time - p) as u64) } else { prev },
            None => prev,
        }
    }
}

/// The line time read from a list of gaps: the first gap equal to the one
/// before it, else the last gap, else `u32::MAX`; with whether it was found
/// stable.
pub open spec fn stable_gap(g: Seq<u64>) -> (u64, bool)
    decreases g.len(),
{
    if g.len() == 0 {
        (u32::MAX as u64, false)
    } else {
        let (l, done) = stable_gap(g.drop_last());
        if done || l == g.last() { (l, true) } else { (g.last(), false) }
    }
}

/// Whether the gap from a line at `p` to one at `t` strays from the line time.
pub open spec fn bad_gap(p: u64, t: u64, line: u64) -> bool {
    sub_overflow(t, p) > line + LINE_TOLERANCE || sub_overflow(t, p) < line - LINE_TOLERANCE
}

/// One repair pass: before each scan-line event that strays from the line
/// before it, a line event one line time earlier is inserted.
pub open spec fn repaired(s: Seq<IsiEvent>, line: u64) -> Seq<IsiEvent>
    decreases s.len(),
{
    if s.len() == 0 {
        Seq::empty()
    } else {
        let prev = repaired(s.drop_last(), line);
        let e = s.last();
        match last_line(s.drop_last()) {
            Some(p) => if e.channel == SCAN_CHANNEL && bad_gap(p, e.time, line) {
                prev.push(IsiEvent { time: sub_overflow(e.time, line) as u64, ..e }).push(e)
            } else {
                prev.push(e)
            },
            None => prev.push(e),
        }
    }
}

/// Up to `n` repair passes, stopping at the first that changes nothing.
pub open spec fn repair_passes(s: Seq<IsiEvent>, line: u64, n: nat) -> Seq<IsiEvent>
    decreases n,
{
    if n == 0 {
        s
    } else {
        let r = repaired(s, line);
        if r.len() == s.len() { s } else { repair_passes(r, line, (n - 1) as nat) }
    }
}

/// The time of the first scan-line event of `s`.
pub open spec fn first_line(s: Seq<IsiEvent>) -> Option<u64>
    decreases s.len(),
{
    if s.len() == 0 {
        None
    } else if s[0].channel == SCAN_CHANNEL {
        Some(s[0].time)
    } else {
        first_line(s.drop_first())
    }
}

/// A list whose first event is a line that strays from the next line loses it.
pub open spec fn drop_bad_start(s: Seq<IsiEvent>, line: u64) -> Seq<IsiEvent> {
    if s.len() > 0 && s[0].channel == SCAN_CHANNEL {
        match first_line(s.drop_first()) {
            Some(t) => if bad_gap(s[0].time, t, line) { s.drop_first() } else { s },
            None => s,
        }
    } else {
        s
    }
}

/// Whether every event time is on the 26-bit clock.
pub open spec fn raw_times(s: Seq<IsiEvent>) -> bool {
    forall|i: int| 0 <= i < s.len() ==> #[trigger] s[i].time < ISI_OVERFLOW
}

proof fn lemma_last_line_raw(s: Seq<IsiEvent>)
    requires
        raw_times(s),
    ensures
        last_line(s) matches Some(t) ==> t < ISI_OVERFLOW,
    decreases s.len(),
{
    if s.len() > 0 && s.last().channel != SCAN_CHANNEL {
        lemma_last_line_raw(s.drop_last());
    }
}

fn bad_gap_exec(p: u64, t: u64, line: u64) -> (r: bool)
    requires
        p < ISI_OVERFLOW,
        t < ISI_OVERFLOW,
        line < ISI_OVERFLOW,
    ensures
        r == bad_gap(p, t, line),
{
    let d = subtract_overflow(t, p);
    d > line + LINE_TOLERANCE || (line >= LINE_TOLERANCE && d < line - LINE_TOLERANCE)
}

/// One repair pass over `s`; see `repaired`.
pub fn repair_pass(s: &Vec<IsiEvent>, line: u64) -> (r: Vec<IsiEvent>)
    requires
        raw_times(s@),
        line < ISI_OVERFLOW,
    ensures
        r@ == repaired(s@, line),
        raw_times(r@),
{
    let mut out: Vec<IsiEvent> = Vec::new();
    let mut last: Option<u64> = None;
    let mut k: usize = 0;
    while k < s.len()
        invariant
            k <= s@.len(),
            raw_times(s@),
            line < ISI_OVERFLOW,
            out@ == repaired(s@.subrange(0, k as int), line),
            last == last_line(s@.subrange(0, k as int)),
            raw_times(out@),
        decreases s@.len() - k,
    {
        let e = s[k];
        let ghost pre = s@.subrange(0, k as int);
        assert(s@.subrange(0, k + 1).drop_last() =~= pre);
        assert(s@.subrange(0, k + 1).last() == e);
        proof {
            lemma_last_line_raw(pre);
        }
        match last {
            Some(p) => {
                if e.channel == SCAN_CHANNEL && bad_gap_exec(p, e.time, line) {
                    let t = subtract_overflow(e.time, line);
                    out.push(IsiEvent { time: t, ..e });
                }
                out.push(e);
            },
            None => {
                out.push(e);
            },
        }
        if e.channel == SCAN_CHANNEL {
            last = Some(e.time);
        }
        k = k + 1;
    }
    assert(s@.subrange(0, s@.len() as int) =~= s@);
    out
}

/// The list of IsiBox events of one measurement, with the scan geometry.
pub struct IsiList {
    pub data_raw: Vec<IsiEvent>,
    pub x: u32,
    pub y: u32,
    pub pixel_time: u32,
    pub counter: u32,
    pub overflow: u32,
    pub last_time: u32,
    pub start_time: Option<u32>,
    pub line_time: Option<u32>,
}

impl IsiList {
    /// The events as photon triggers in TP3 fine ticks from the first scan
    /// line; see `timelist_with_tp3_tick`.
    pub fn get_timelist_with_tp3_tick(&self) -> (r: Option<Vec<Photon>>)
        requires
            forall|i: int| 0 <= i < self.data_raw@.len() ==> #[trigger] self.data_raw@[i].time <= u64::MAX / 7200,
        ensures
            r matches Some(v) ==> ({
                &&& first_line(self.data_raw@) matches Some(f)
                &&& v@.len() == self.data_raw@.len()
                &&& forall|i: int| 0 <= i < self.data_raw@.len() ==> #[trigger] v@[i] == (Photon {
                    time: (tp3_tick(self.data_raw@[i].time) - tp3_tick(f)) as u64,
                    channel: self.data_raw@[i].channel as u8,
                    g2: self.data_raw@[i].dt,
                })
            }),
            r is None <==> (first_line(self.data_raw@) is None || exists|i: int| 0 <= i < self.data_raw@.len()
                && tp3_tick(#[trigger] self.data_raw@[i].time) < tp3_tick(first_line(self.data_raw@).unwrap())),
    {
        timelist_with_tp3_tick(&self.data_raw)
    }

    pub fn new(x: u32, y: u32, pixel_time: u32) -> (r: IsiList)
        ensures
            r.data_raw@.len() == 0,
            r.x == x,
            r.y == y,
            r.pixel_time == pixel_time,
            r.counter == 0,
            r.overflow == 0,
            r.last_time == 0,
            r.start_time is None,
            r.line_time is None,
    {
        IsiList { data_raw: Vec::new(), x, y, pixel_time, counter: 0, overflow: 0, last_time: 0, start_time: None, line_time: None }
    }

    /// Counts a scan line at raw time `data`, and a wrap when it is earlier
    /// than the last one.
    pub fn increase_counter(&mut self, data: u32)
        requires
            old(self).counter < u32::MAX,
            old(self).overflow < u32::MAX,
        ensures
            final(self).overflow == old(self).overflow + (if data < old(self).last_time { 1int } else { 0 }),
            final(self).last_time == data,
            final(self).counter == old(self).counter + 1,
            final(self).data_raw == old(self).data_raw,
            final(self).line_time == old(self).line_time,
            final(self).x == old(self).x && final(self).y == old(self).y && final(self).pixel_time == old(self).pixel_time,
    {
        if data < self.last_time {
            self.overflow = self.overflow + 1;
        }
        self.last_time = data;
        self.counter = self.counter + 1;
    }

    /// Appends an event.
    pub fn add_event(&mut self, channel: u32, data: u32)
        ensures
            final(self).data_raw@ == old(self).data_raw@.push(
                IsiEvent { time: data as u64, channel, spim_index: None, spim_frame: None, dt: None }),
            final(self).line_time == old(self).line_time,
            final(self).x == old(self).x && final(self).y == old(self).y && final(self).pixel_time == old(self).pixel_time,
    {
        self.data_raw.push(IsiEvent { time: data as u64, channel, spim_index: None, spim_frame: None, dt: None });
    }

    /// Finds the line time: the first gap between scan lines equal to the gap
    /// before it.
    pub fn determine_line_time(&mut self)
        requires
            raw_times(old(self).data_raw@),
        ensures
            final(self).line_time == Some(stable_gap(line_gaps(old(self).data_raw@)).0 as u32),
            stable_gap(line_gaps(old(self).data_raw@)).0 <= u32::MAX,
            final(self).data_raw == old(self).data_raw,
            final(self).x == old(self).x && final(self).y == old(self).y && final(self).pixel_time == old(self).pixel_time,
    {
        let mut last: Option<u64> = None;
        let mut line: u64 = u32::MAX as u64;
        let mut done = false;
        let ghost mut gaps: Seq<u64> = Seq::empty();
        let mut k: usize = 0;
        while k < self.data_raw.len()
            invariant
                k <= self.data_raw@.len(),
                raw_times(self.data_raw@),
                last == last_line(self.data_raw@.subrange(0, k as int)),
                gaps == line_gaps(self.data_raw@.subrange(0, k as int)),
                (line, done) == stable_gap(gaps),
                line <= u32::MAX,
            decreases self.data_raw@.len() - k,
        {
            let e = self.data_raw[k];
            let ghost pre = self.data_raw@.subrange(0, k as int);
            assert(self.data_raw@.subrange(0, k + 1).drop_last() =~= pre);
            proof {
                lemma_last_line_raw(pre);
            }
            if e.channel == SCAN_CHANNEL {
                if let Some(p) = last {
                    if e.time > p {
                        let d = e.time - p;
                        proof {
                            gaps = gaps.push(d);
                            assert(gaps.drop_last() =~= line_gaps(pre));
                        }
                        if !done {
                            if line == d {
                                done = true;
                            } else {
                                line = d;
                            }
                        }
                    }
                }
                last = Some(e.time);
            }
            k = k + 1;
        }
        assert(self.data_raw@.subrange(0, self.data_raw@.len() as int) =~= self.data_raw@);
        self.line_time = Some(line as u32);
    }

    /// Repairs the scan lines: drops a bad first line, then runs up to 100
    /// repair passes.
    pub fn check_for_issues(&mut self)
        requires
            raw_times(old(self).data_raw@),
            old(self).line_time is Some,
            (old(self).line_time.unwrap() as u64) < ISI_OVERFLOW,
        ensures
            final(self).data_raw@ == repair_passes(
                drop_bad_start(old(self).data_raw@, old(self).line_time.unwrap() as u64),
                old(self).line_time.unwrap() as u64,
                100,
            ),
            raw_times(final(self).data_raw@),
            final(self).line_time == old(self).line_time,
            final(self).x == old(self).x && final(self).y == old(self).y && final(self).pixel_time == old(self).pixel_time,
    {
        let line = match self.line_time {
            Some(l) => l as u64,
            None => 0,
        };
        let ghost s0 = self.data_raw@;
        if self.data_raw.len() > 0 && self.data_raw[0].channel == SCAN_CHANNEL {
            let t0 = self.data_raw[0].time;
            assert(s0.drop_first() =~= s0.subrange(1, s0.len() as int));
            let mut k: usize = 1;
            let mut next: Option<u64> = None;
            while k < self.data_raw.len() && next.is_none()
                invariant
                    1 <= k <= self.data_raw@.len(),
                    self.data_raw@ == s0,
                    raw_times(s0),
                    t0 < ISI_OVERFLOW,
                    next matches Some(t) ==> t < ISI_OVERFLOW,
                    first_line(s0.drop_first()) == (if next is Some { next } else { first_line(s0.subrange(k as int, s0.len() as int)) }),
                decreases self.data_raw@.len() - k + (if next is Some { 0int } else { 1 }),
            {
                let ghost rest = s0.subrange(k as int, s0.len() as int);
                assert(rest.drop_first() =~= s0.subrange(k + 1, s0.len() as int));
                if self.data_raw[k].channel == SCAN_CHANNEL {
                    next = Some(self.data_raw[k].time);
                } else {
                    k = k + 1;
                }
            }
            proof {
                assert(s0.subrange(1, s0.len() as int) =~= s0.drop_first());
                if next is None {
                    assert(s0.subrange(k as int, s0.len() as int) =~= Seq::<IsiEvent>::empty());
                }
            }
            if let Some(t) = next {
                if bad_gap_exec(t0, t, line) {
                    self.data_raw.remove(0);
                    assert(self.data_raw@ =~= s0.drop_first());
                }
            }
        }
        assert(self.data_raw@ == drop_bad_start(s0, line));
        let ghost start = self.data_raw@;
        let mut pass: u32 = 0;
        let mut stop = false;
        while pass < 100 && !stop
            invariant
                pass <= 100,
                raw_times(self.data_raw@),
                line < ISI_OVERFLOW,
                line == old(self).line_time.unwrap() as u64,
                self.line_time == old(self).line_time,
                self.x == old(self).x && self.y == old(self).y && self.pixel_time == old(self).pixel_time,
                repair_passes(start, line, 100) == (if stop { self.data_raw@ } else { repair_passes(self.data_raw@, line, (100 - pass) as nat) }),
            decreases 100 - pass + (if stop { 0int } else { 1 }),
        {
            let r = repair_pass(&self.data_raw, line);
            if r.len() == self.data_raw.len() {
                stop = true;
            } else {
                self.data_raw = r;
                pass = pass + 1;
            }
        }
        proof {
            if !stop {
                assert(pass == 100);
            }
        }
    }
}

/// Photon times of an IsiBox list in TP3 fine ticks (twelfths of 3.125 ns),
/// counted from the first scan line: a tick of 120 ps is 1200 * 6 / 15625 of
/// them.
pub open spec fn tp3_tick(t: u64) -> int {
    (t * 1200 * 6) / 15625
}

/// The events of a list as photon triggers in TP3 fine ticks from the first
/// scan line; `None` without a scan line, or when an event precedes it.
pub fn timelist_with_tp3_tick(s: &Vec<IsiEvent>) -> (r: Option<Vec<Photon>>)
    requires
        forall|i: int| 0 <= i < s@.len() ==> #[trigger] s@[i].time <= u64::MAX / 7200,
    ensures
        r matches Some(v) ==> ({
            &&& first_line(s@) matches Some(f)
            &&& v@.len() == s@.len()
            &&& forall|i: int| 0 <= i < s@.len() ==> #[trigger] v@[i] == (Photon {
                time: (tp3_tick(s@[i].time) - tp3_tick(f)) as u64,
                channel: s@[i].channel as u8,
                g2: s@[i].dt,
            })
        }),
        r is None <==> (first_line(s@) is None || exists|i: int| 0 <= i < s@.len()
            && tp3_tick(#[trigger] s@[i].time) < tp3_tick(first_line(s@).unwrap())),
{
    let mut first: Option<u64> = None;
    let mut k: usize = 0;
    assert(s@.subrange(0, s@.len() as int) =~= s@);
    while k < s.len() && first.is_none()
        invariant
            k <= s@.len(),
            first_line(s@) == (if first is Some { first } else { first_line(s@.subrange(k as int, s@.len() as int)) }),
            forall|i: int| 0 <= i < s@.len() ==> #[trigger] s@[i].time <= u64::MAX / 7200,
        decreases s@.len() - k + (if first is Some { 0int } else { 1 }),
    {
        let ghost rest = s@.subrange(k as int, s@.len() as int);
        assert(rest.drop_first() =~= s@.subrange(k + 1, s@.len() as int));
        if s[k].channel == SCAN_CHANNEL {
            first = Some(s[k].time);
        } else {
            k = k + 1;
        }
    }
    proof {
        assert(s@.subrange(0, s@.len() as int) =~= s@);
        if first is None {
            assert(s@.subrange(k as int, s@.len() as int) =~= Seq::<IsiEvent>::empty());
        }
    }
    let f = match first {
        Some(f) => f,
        None => return None,
    };
    proof {
        lemma_first_line_in(s@);
    }
    let ft = f * 1200 * 6 / 15625;
    let mut out: Vec<Photon> = Vec::new();
    let mut i: usize = 0;
    while i < s.len()
        invariant
            i <= s@.len(),
            first_line(s@) == Some(f),
            ft == tp3_tick(f),
            forall|i: int| 0 <= i < s@.len() ==> #[trigger] s@[i].time <= u64::MAX / 7200,
            out@.len() == i,
            forall|j: int| 0 <= j < i ==> tp3_tick(#[trigger] s@[j].time) >= ft,
            forall|j: int| 0 <= j < i ==> #[trigger] out@[j] == (Photon {
                time: (tp3_tick(s@[j].time) - ft) as u64,
                channel: s@[j].channel as u8,
                g2: s@[j].dt,
            }),
        decreases s@.len() - i,
    {
        let e = s[i];
        let t = e.time * 1200 * 6 / 15625;
        if t < ft {
            return None;
        }
        out.push(Photon { time: t - ft, channel: e.channel as u8, g2: e.dt });
        i = i + 1;
    }
    Some(out)
}

proof fn lemma_first_line_in(s: Seq<IsiEvent>)
    ensures
        first_line(s) matches Some(f) ==> exists|i: int| 0 <= i < s.len() && s[i].time == f,
    decreases s.len(),
{
    if s.len() > 0 && s[0].channel != SCAN_CHANNEL {
        lemma_first_line_in(s.drop_first());
        if let Some(f) = first_line(s) {
            let i = choose|i: int| 0 <= i < s.drop_first().len() && s.drop_first()[i].time == f;
            assert(s[i + 1].time == f);
        }
    }
}

/// What the time correction carries from event to event: lines seen, the
/// raw time of the last line, and the wraps of the 26-bit clock.
#[derive(Debug, Clone, Copy, PartialEq, Eq, Structural)]
pub struct CorrectState {
    pub counter: u32,
    pub last: u64,
    pub overflow: u32,
}

/// Scan pixel of an event at raw time `r`: the row counts lines modulo `y`,
/// the column is the time since the last line over the pixel time; none past
/// the active part `low` of the line.
pub open spec fn isi_index(r: u64, st: CorrectState, x: u32, y: u32, low: u64) -> Option<u32> {
    let elapsed = sub_overflow(r, st.last);
    if elapsed > low {
        None
    } else {
        let column = if elapsed * x / (low as int) < x { elapsed * x / (low as int) } else { x - 1 };
        Some(((st.counter % y) * x + column) as u32)
    }
}

/// An event with its time unwrapped and its scan pixel and frame filled in.
pub open spec fn corrected_event(e: IsiEvent, st: CorrectState, x: u32, y: u32, low: u64) -> IsiEvent {
    IsiEvent {
        time: (e.time + (if e.time > st.last { st.overflow as int } else { st.overflow + 1 }) * ISI_OVERFLOW) as u64,
        spim_index: isi_index(e.time, st, x, y, low),
        spim_frame: Some((st.counter / y) as u32),
        ..e
    }
}

/// The state after an event: a scan line counts, and wraps when earlier than
/// the last one.
pub open spec fn next_state(e: IsiEvent, st: CorrectState) -> CorrectState {
    if e.channel == SCAN_CHANNEL {
        CorrectState {
            counter: (st.counter + 1) as u32,
            last: e.time,
            overflow: (st.overflow + (if e.time < st.last { 1int } else { 0 })) as u32,
        }
    } else {
        st
    }
}

/// The first `n` events corrected, and the state after them.
pub open spec fn correct_fold(s: Seq<IsiEvent>, n: int, x: u32, y: u32, low: u64) -> (Seq<IsiEvent>, CorrectState)
    decreases n,
{
    if n <= 0 {
        (Seq::empty(), CorrectState { counter: 0, last: 0, overflow: 0 })
    } else {
        let (out, st) = correct_fold(s, n - 1, x, y, low);
        (out.push(corrected_event(s[n - 1], st, x, y, low)), next_state(s[n - 1], st))
    }
}

proof fn lemma_correct_state_bounds(s: Seq<IsiEvent>, n: int, x: u32, y: u32, low: u64)
    requires
        0 <= n <= s.len(),
        raw_times(s),
    ensures
        correct_fold(s, n, x, y, low).1.counter <= n,
        correct_fold(s, n, x, y, low).1.overflow <= n,
        correct_fold(s, n, x, y, low).1.last < ISI_OVERFLOW,
        correct_fold(s, n, x, y, low).0.len() == n,
    decreases n,
{
    if n > 0 {
        lemma_correct_state_bounds(s, n - 1, x, y, low);
    }
}

impl IsiList {
    /// Unwraps every event time and fills in its scan pixel and frame.
    pub fn correct_data(&mut self)
        requires
            raw_times(old(self).data_raw@),
            old(self).data_raw@.len() < u32::MAX,
            old(self).x > 0,
            old(self).y > 0,
            old(self).pixel_time > 0,
            old(self).x as int * old(self).y <= u32::MAX,
        ensures
            final(self).data_raw@ == correct_fold(old(self).data_raw@, old(self).data_raw@.len() as int,
                old(self).x, old(self).y, (old(self).x * old(self).pixel_time) as u64).0,
            final(self).x == old(self).x && final(self).y == old(self).y && final(self).pixel_time == old(self).pixel_time,
            final(self).line_time == old(self).line_time,
    {
        let x = self.x;
        let y = self.y;
        let pt = self.pixel_time;
        assert((x as u64) * (pt as u64) <= u64::MAX) by (nonlinear_arith)
            requires
                x <= u32::MAX,
                pt <= u32::MAX,
        ;
        let low = (x as u64) * (pt as u64);
        let ghost s0 = self.data_raw@;
        proof {
            assert(low as int == x as int * pt as int);
            assert(low > 0) by (nonlinear_arith)
                requires
                    low as int == x as int * pt as int,
                    x > 0,
                    pt > 0,
            ;
        }
        let mut st = CorrectState { counter: 0, last: 0, overflow: 0 };
        let n = self.data_raw.len();
        let mut k: usize = 0;
        while k < n
            invariant
                n == s0.len(),
                k <= n,
                n < u32::MAX,
                raw_times(s0),
                x == old(self).x && y == old(self).y && x > 0 && y > 0,
                x as int * y <= u32::MAX,
                low > 0,
                pt == old(self).pixel_time,
                low as int == x as int * pt as int,
                low == (old(self).x * old(self).pixel_time) as u64,
                self.x == old(self).x && self.y == old(self).y && self.pixel_time == old(self).pixel_time,
                self.line_time == old(self).line_time,
                self.data_raw@.len() == n,
                self.data_raw@.subrange(0, k as int) == correct_fold(s0, k as int, x, y, low).0,
                forall|j: int| k <= j < n ==> #[trigger] self.data_raw@[j] == s0[j],
                st == correct_fold(s0, k as int, x, y, low).1,
            decreases n - k,
        {
            proof {
                lemma_correct_state_bounds(s0, k as int, x, y, low);
            }
            let e = self.data_raw[k];
            let r = e.time;
            let wraps: u64 = if r > st.last { st.overflow as u64 } else { st.overflow as u64 + 1 };
            proof {
                assert(wraps * ISI_OVERFLOW <= (n as int + 1) * ISI_OVERFLOW) by (nonlinear_arith)
                    requires
                        wraps <= n + 1,
                ;
            }
            let time = r + wraps * ISI_OVERFLOW;
            let elapsed = subtract_overflow(r, st.last);
            let index: Option<u32> = if elapsed > low {
                None
            } else {
                proof {
                    assert(elapsed * x <= low * x) by (nonlinear_arith)
                        requires
                            elapsed <= low,
                    ;
                    assert(elapsed * (x as int) <= u64::MAX) by (nonlinear_arith)
                        requires
                            elapsed < ISI_OVERFLOW,
                            x <= u32::MAX,
                    ;
                }
                let q = elapsed * (x as u64) / low;
                let column: u64 = if q < x as u64 { q } else { (x - 1) as u64 };
                let row = (st.counter % y) as u64;
                proof {
                    assert(row * x + column < x * y) by (nonlinear_arith)
                        requires
                            row < y,
                            column < x,
                    ;
                }
                Some((row * (x as u64) + column) as u32)
            };
            let ce = IsiEvent { time, spim_index: index, spim_frame: Some(st.counter / y), ..e };
            self.data_raw.set(k, ce);
            if e.channel == SCAN_CHANNEL {
                if r < st.last {
                    st.overflow = st.overflow + 1;
                }
                st.counter = st.counter + 1;
                st.last = r;
            }
            k = k + 1;
            proof {
                assert(self.data_raw@.subrange(0, k as int) =~= correct_fold(s0, k as int, x, y, low).0);
            }
        }
        assert(self.data_raw@ =~= self.data_raw@.subrange(0, n as int));
    }
}

proof fn lemma_correct_prefix(s: Seq<IsiEvent>, n: int, i: int, x: u32, y: u32, low: u64)
    requires
        0 <= i < n,
    ensures
        correct_fold(s, n, x, y, low).0[i] == corrected_event(s[i], correct_fold(s, i, x, y, low).1, x, y, low),
    decreases n,
{
    lemma_correct_state_len(s, n, x, y, low);
    if i < n - 1 {
        lemma_correct_prefix(s, n - 1, i, x, y, low);
        lemma_correct_state_len(s, n - 1, x, y, low);
    }
}

proof fn lemma_correct_state_len(s: Seq<IsiEvent>, n: int, x: u32, y: u32, low: u64)
    ensures
        correct_fold(s, n, x, y, low).0.len() == (if n > 0 { n } else { 0 }),
    decreases n,
{
    if n > 0 {
        lemma_correct_state_len(s, n - 1, x, y, low);
    }
}

/// The unwrapped time of an event is that of the last line plus the time
/// since it on the 26-bit clock; a line becomes the new reference.
proof fn lemma_corrected_offset(e: IsiEvent, st: CorrectState, x: u32, y: u32, low: u64)
    requires
        e.time < ISI_OVERFLOW,
        st.last < ISI_OVERFLOW,
        e.time != st.last,
        st.overflow < u32::MAX,
        st.counter < u32::MAX,
    ensures
        corrected_event(e, st, x, y, low).time == st.last + st.overflow * ISI_OVERFLOW + sub_overflow(e.time, st.last),
        e.channel == SCAN_CHANNEL ==> next_state(e, st).last + next_state(e, st).overflow * ISI_OVERFLOW
            == corrected_event(e, st, x, y, low).time,
        0 < sub_overflow(e.time, st.last) < ISI_OVERFLOW,
{
    let m = ISI_OVERFLOW as int;
    assert(st.overflow * m + 2 * m <= u64::MAX) by (nonlinear_arith)
        requires
            st.overflow < u32::MAX,
            m == ISI_OVERFLOW,
    ;
    if e.time > st.last {
        assert((e.time - st.last) % m == e.time - st.last);
    } else {
        assert((e.time + m - st.last) % m == e.time + m - st.last);
        assert((st.overflow + 1) * m == st.overflow * m + m) by (nonlinear_arith);
    }
}

/// Corrected times never go back, across wraps of the 26-bit clock, when the
/// events come in time order: each event no earlier, on the 26-bit clock
/// counted from the last line, than the one before it, and none at the very
/// raw time of that line.
pub proof fn lemma_corrected_times_monotone(s: Seq<IsiEvent>, x: u32, y: u32, low: u64)
    requires
        raw_times(s),
        s.len() < u32::MAX,
        forall|i: int| 0 <= i < s.len() ==> #[trigger] s[i].time != correct_fold(s, i, x, y, low).1.last,
        forall|i: int| 0 <= i < s.len() - 1 && s[i].channel != SCAN_CHANNEL ==> sub_overflow(#[trigger] s[i].time,
            correct_fold(s, i, x, y, low).1.last) <= sub_overflow(s[i + 1].time, correct_fold(s, i, x, y, low).1.last),
    ensures
        forall|i: int| 0 <= i < s.len() - 1 ==> (#[trigger] correct_fold(s, s.len() as int, x, y, low).0[i]).time
            <= correct_fold(s, s.len() as int, x, y, low).0[i + 1].time,
{
    let n = s.len() as int;
    assert forall|i: int| 0 <= i < n - 1 implies (#[trigger] correct_fold(s, n, x, y, low).0[i]).time
        <= correct_fold(s, n, x, y, low).0[i + 1].time by {
        lemma_correct_prefix(s, n, i, x, y, low);
        lemma_correct_prefix(s, n, i + 1, x, y, low);
        lemma_correct_state_bounds(s, i, x, y, low);
        lemma_correct_state_bounds(s, i + 1, x, y, low);
        let st = correct_fold(s, i, x, y, low).1;
        let st1 = correct_fold(s, i + 1, x, y, low).1;
        assert(st1 == next_state(s[i], st));
        assert(s[i].time != st.last);
        assert(s[i + 1].time != st1.last);
        lemma_corrected_offset(s[i], st, x, y, low);
        lemma_corrected_offset(s[i + 1], st1, x, y, low);
    }
}

/// Offsets to add to IsiBox event times, filled in line by line: `start` is
/// where the next span begins.
pub struct IsiBoxCorrectVector {
    pub corr: Vec<Option<u64>>,
    pub start: usize,
}

impl IsiBoxCorrectVector {
    pub fn new(n: usize) -> (r: IsiBoxCorrectVector)
        ensures
            r.corr@ == Seq::new(n as nat, |i: int| None::<u64>),
            r.start == 0,
    {
        let corr: Vec<Option<u64>> = vec![None; n];
        assert(corr@ =~= Seq::new(n as nat, |i: int| None::<u64>));
        IsiBoxCorrectVector { corr, start: 0 }
    }

    /// Gives `value` to every event from `start` to `max_index` that has no
    /// offset yet, and starts the next span at `max_index`.
    pub fn add_offset(&mut self, max_index: usize, value: u64)
        requires
            old(self).start <= max_index < old(self).corr.len(),
        ensures
            final(self).start == max_index,
            final(self).corr@.len() == old(self).corr@.len(),
            forall|i: int| 0 <= i < old(self).corr@.len() ==> #[trigger] final(self).corr@[i] == (
                if old(self).start <= i <= max_index && old(self).corr@[i] is None { Some(value) } else { old(self).corr@[i] }),
    {
        let mut k = self.start;
        while k <= max_index
            invariant
                old(self).start <= k <= max_index + 1,
                max_index < old(self).corr.len(),
                self.start == old(self).start,
                self.corr@.len() == old(self).corr@.len(),
                forall|i: int| 0 <= i < old(self).corr@.len() ==> #[trigger] self.corr@[i] == (
                    if old(self).start <= i < k && old(self).corr@[i] is None { Some(value) } else { old(self).corr@[i] }),
            decreases max_index + 1 - k,
        {
            if self.corr[k].is_none() {
                self.corr.set(k, Some(value));
            }
            k = k + 1;
        }
        self.start = max_index;
    }
}

/// Adds the offsets found so far to the photon times and marks them used
/// (an offset of zero remains).
pub fn correct_tdc(tdc: &mut Vec<Photon>, corr: &mut IsiBoxCorrectVector)
    requires
        forall|i: int| 0 <= i < old(tdc)@.len() && i < old(corr).corr@.len() ==> (#[trigger] old(corr).corr@[i] matches Some(c)
            ==> old(tdc)@[i].time + c <= u64::MAX),
    ensures
        final(tdc)@.len() == old(tdc)@.len(),
        final(corr).corr@.len() == old(corr).corr@.len(),
        final(corr).start == old(corr).start,
        forall|i: int| 0 <= i < old(tdc)@.len() ==> #[trigger] final(tdc)@[i] == (
            if i < old(corr).corr@.len() && old(corr).corr@[i] is Some {
                Photon { time: (old(tdc)@[i].time + old(corr).corr@[i].unwrap()) as u64, ..old(tdc)@[i] }
            } else {
                old(tdc)@[i]
            }),
        forall|i: int| 0 <= i < old(corr).corr@.len() ==> #[trigger] final(corr).corr@[i] == (
            if i < old(tdc)@.len() && old(corr).corr@[i] is Some { Some(0u64) } else { old(corr).corr@[i] }),
{
    let n = if tdc.len() < corr.corr.len() { tdc.len() } else { corr.corr.len() };
    let mut k: usize = 0;
    while k < n
        invariant
            k <= n,
            n <= old(tdc)@.len() && n <= old(corr).corr@.len(),
            n == old(tdc)@.len() || n == old(corr).corr@.len(),
            tdc@.len() == old(tdc)@.len(),
            corr.corr@.len() == old(corr).corr@.len(),
            corr.start == old(corr).start,
            forall|i: int| 0 <= i < old(tdc)@.len() && i < old(corr).corr@.len() ==> (#[trigger] old(corr).corr@[i] matches Some(c)
                ==> old(tdc)@[i].time + c <= u64::MAX),
            forall|i: int| 0 <= i < old(tdc)@.len() ==> #[trigger] tdc@[i] == (
                if i < k && old(corr).corr@[i] is Some {
                    Photon { time: (old(tdc)@[i].time + old(corr).corr@[i].unwrap()) as u64, ..old(tdc)@[i] }
                } else {
                    old(tdc)@[i]
                }),
            forall|i: int| 0 <= i < old(corr).corr@.len() ==> #[trigger] corr.corr@[i] == (
                if i < k && old(corr).corr@[i] is Some { Some(0u64) } else { old(corr).corr@[i] }),
        decreases n - k,
    {
        if let Some(c) = corr.corr[k] {
            let p = tdc[k];
            tdc.set(k, Photon { time: p.time + c, ..p });
            corr.corr.set(k, Some(0));
        }
        k = k + 1;
    }
}

/// Lines whose offset moves by more than this many fine ticks break the sync.
pub const ISI_TP3_MAX_DIF: u64 = 1_000;

/// Whether two offsets are further apart than the sync allows.
pub open spec fn offset_jump(a: int, b: int) -> bool {
    a > b + ISI_TP3_MAX_DIF || b > a + ISI_TP3_MAX_DIF
}

/// The offset of one line pair: the TP3 line time minus the IsiBox line time.
/// When the IsiBox time is ahead, the TP3 time is taken one wrap later; when
/// the offset jumps from the last one, one wrap earlier. `None` when no
/// choice gives a non-negative offset.
pub open spec fn pair_offset(tdc_val: u64, wrap: u64, isi_time: u64, last_offset: u64) -> Option<int> {
    if isi_time > tdc_val {
        if tdc_val + wrap >= isi_time { Some(tdc_val + wrap - isi_time) } else { None }
    } else if last_offset != 0 && offset_jump(tdc_val - isi_time, last_offset as int) {
        if tdc_val >= wrap + isi_time { Some(tdc_val - wrap - isi_time) } else { None }
    } else {
        Some(tdc_val - isi_time)
    }
}

/// What a sync holds, as plain values.
pub struct SyncModel {
    pub offset: u64,
    pub quit: bool,
    pub corr: Seq<Option<u64>>,
    pub start: int,
}

/// The offsets after `v` is given to the events from `start` to `idx` that
/// have none yet.
pub open spec fn spread(corr: Seq<Option<u64>>, start: int, idx: int, v: u64) -> Seq<Option<u64>> {
    Seq::new(corr.len(), |i: int| if start <= i <= idx && corr[i] is None { Some(v) } else { corr[i] })
}

/// A sync after one line pair; see `IsiSync::line_edge`.
pub open spec fn line_edge_spec(m: SyncModel, tdc_val: u64, wrap: u64, idx: int, isi_time: u64) -> SyncModel {
    match pair_offset(tdc_val, wrap, isi_time, m.offset) {
        None => SyncModel { quit: true, ..m },
        Some(d) => if m.offset != 0 && offset_jump(d, m.offset as int) {
            SyncModel { offset: d as u64, quit: true, ..m }
        } else {
            SyncModel { offset: d as u64, corr: spread(m.corr, m.start, idx, d as u64), start: idx, ..m }
        },
    }
}

impl View for IsiSync {
    type V = SyncModel;

    open spec fn view(&self) -> SyncModel {
        SyncModel { offset: self.offset, quit: self.quit, corr: self.correct.corr@, start: self.correct.start as int }
    }
}

/// Pairs TP3 scan lines with IsiBox scan lines and spreads the offset between
/// the two clocks over the IsiBox events.
pub struct IsiSync {
    pub offset: u64,
    pub quit: bool,
    pub correct: IsiBoxCorrectVector,
}

impl IsiSync {
    /// Takes one pair: a TP3 line at `tdc_val` (unwrapped by the caller's
    /// estimate; `wrap` is one TP3 wrap) and the IsiBox line at `isi_time`,
    /// event `isi_index`. An offset that jumps from the last one, or none at
    /// all, means the sync is lost: `quit` is set and nothing is spread.
    pub fn line_edge(&mut self, tdc_val: u64, wrap: u64, isi_index: usize, isi_time: u64)
        requires
            old(self).correct.start <= isi_index < old(self).correct.corr@.len(),
            tdc_val as int + wrap <= u64::MAX,
        ensures
            ({
                let off = pair_offset(tdc_val, wrap, isi_time, old(self).offset);
                match off {
                    None => final(self).quit && final(self).correct == old(self).correct
                        && final(self).offset == old(self).offset,
                    Some(d) => {
                        &&& final(self).offset == d
                        &&& if old(self).offset != 0 && offset_jump(d, old(self).offset as int) {
                            final(self).quit && final(self).correct == old(self).correct
                        } else {
                            &&& final(self).quit == old(self).quit
                            &&& final(self).correct.start == isi_index
                            &&& final(self).correct.corr@.len() == old(self).correct.corr@.len()
                            &&& forall|i: int| 0 <= i < old(self).correct.corr@.len() ==> #[trigger] final(self).correct.corr@[i] == (
                                if old(self).correct.start <= i <= isi_index && old(self).correct.corr@[i] is None {
                                    Some(d as u64)
                                } else {
                                    old(self).correct.corr@[i]
                                })
                        }
                    },
                }
            }),
            final(self)@ == line_edge_spec(old(self)@, tdc_val, wrap, isi_index as int, isi_time),
    {
        let ghost m = self@;
        self.line_edge_step(tdc_val, wrap, isi_index, isi_time);
        proof {
            if let Some(d) = pair_offset(tdc_val, wrap, isi_time, m.offset) {
                if !(m.offset != 0 && offset_jump(d, m.offset as int)) {
                    assert(self.correct.corr@ =~= spread(m.corr, m.start, isi_index as int, d as u64));
                }
            }
        }
    }

    fn line_edge_step(&mut self, tdc_val: u64, wrap: u64, isi_index: usize, isi_time: u64)
        requires
            old(self).correct.start <= isi_index < old(self).correct.corr@.len(),
            tdc_val as int + wrap <= u64::MAX,
        ensures
            ({
                let off = pair_offset(tdc_val, wrap, isi_time, old(self).offset);
                match off {
                    None => final(self).quit && final(self).correct == old(self).correct
                        && final(self).offset == old(self).offset,
                    Some(d) => {
                        &&& final(self).offset == d
                        &&& if old(self).offset != 0 && offset_jump(d, old(self).offset as int) {
                            final(self).quit && final(self).correct == old(self).correct
                        } else {
                            &&& final(self).quit == old(self).quit
                            &&& final(self).correct.start == isi_index
                            &&& final(self).correct.corr@.len() == old(self).correct.corr@.len()
                            &&& forall|i: int| 0 <= i < old(self).correct.corr@.len() ==> #[trigger] final(self).correct.corr@[i] == (
                                if old(self).correct.start <= i <= isi_index && old(self).correct.corr@[i] is None {
                                    Some(d as u64)
                                } else {
                                    old(self).correct.corr@[i]
                                })
                        }
                    },
                }
            }),
    {
        let d: u64 = if isi_time > tdc_val {
            if tdc_val + wrap >= isi_time {
                tdc_val + wrap - isi_time
            } else {
                self.quit = true;
                return;
            }
        } else {
            let t_dif = tdc_val - isi_time;
            if self.offset != 0 && (t_dif as u128 > self.offset as u128 + ISI_TP3_MAX_DIF as u128
                || self.offset as u128 > t_dif as u128 + ISI_TP3_MAX_DIF as u128) {
                if tdc_val >= wrap && tdc_val - wrap >= isi_time {
                    tdc_val - wrap - isi_time
                } else {
                    self.quit = true;
                    return;
                }
            } else {
                t_dif
            }
        };
        if self.offset != 0 && (d as u128 > self.offset as u128 + ISI_TP3_MAX_DIF as u128 || self.offset as u128 > d as u128 + ISI_TP3_MAX_DIF as u128) {
            self.quit = true;
        } else {
            self.correct.add_offset(isi_index, d);
        }
        self.offset = d;
    }
}

/// Photons of two channels closer than this many ticks coincide.
pub const G2_WINDOW: i64 = 5_000;
/// The search for one photon stops past this many ticks.
pub const G2_SPAN: i64 = 100_000;

/// What the photon-photon search carries: the second-channel events with
/// their time differences, the cursor, the pairs found, and the last time
/// difference of the current first-channel event.
pub struct G2State {
    pub v2: Seq<IsiEvent>,
    pub min: int,
    pub pairs: Seq<(i64, Option<u32>, Option<u32>)>,
    pub dt1: Option<i16>,
}

/// Scans the second-channel events from `j` (the scan began at `m`) for a
/// first-channel event at `t1`.
pub open spec fn g2_scan(t1: int, g: G2State, m: int, j: int) -> G2State
    decreases g.v2.len() - j,
{
    if j < 0 || j >= g.v2.len() {
        g
    } else {
        let dt = g.v2[j].time - t1;
        let g1 = if -G2_WINDOW < dt < G2_WINDOW {
            G2State {
                v2: g.v2.update(j, IsiEvent { dt: Some(dt as i16), ..g.v2[j] }),
                min: if g.min + (j - m) / 10 <= g.v2.len() { g.min + (j - m) / 10 } else { g.v2.len() as int },
                pairs: g.pairs.push((dt as i64, g.v2[j].spim_index, g.v2[j].spim_frame)),
                dt1: Some(dt as i16),
            }
        } else {
            g
        };
        if dt > G2_SPAN { g1 } else { g2_scan(t1, g1, m, j + 1) }
    }
}

/// The photon-photon search over the first `n` events: each event of channel
/// `ch1` is compared with the `ch2` events from the cursor on.
pub open spec fn g2_fold(s: Seq<IsiEvent>, ch1: u32, v2: Seq<IsiEvent>, n: int) -> (Seq<IsiEvent>, G2State)
    decreases n,
{
    if n <= 0 {
        (Seq::empty(), G2State { v2, min: 0, pairs: Seq::empty(), dt1: None })
    } else {
        let (out, g) = g2_fold(s, ch1, v2, n - 1);
        let e = s[n - 1];
        if e.channel == ch1 {
            let g1 = g2_scan(e.time as int, G2State { dt1: None, ..g }, g.min, g.min);
            let e1 = match g1.dt1 { Some(d) => IsiEvent { dt: Some(d), ..e }, None => e };
            (out.push(e1), g1)
        } else {
            (out.push(e), g)
        }
    }
}

/// The events of one channel.
pub open spec fn channel_events(s: Seq<IsiEvent>, ch: u32) -> Seq<IsiEvent> {
    s.filter(|e: IsiEvent| e.channel == ch)
}

proof fn lemma_g2_scan_shape(t1: int, g: G2State, m: int, j: int)
    requires
        0 <= g.min <= g.v2.len(),
        m <= j,
    ensures
        g2_scan(t1, g, m, j).v2.len() == g.v2.len(),
        0 <= g2_scan(t1, g, m, j).min <= g.v2.len(),
        forall|i: int| 0 <= i < g.v2.len() ==> (#[trigger] g2_scan(t1, g, m, j).v2[i]).time == g.v2[i].time,
    decreases g.v2.len() - j,
{
    if 0 <= j < g.v2.len() {
        let dt = g.v2[j].time - t1;
        let g1 = if -G2_WINDOW < dt < G2_WINDOW {
            G2State {
                v2: g.v2.update(j, IsiEvent { dt: Some(dt as i16), ..g.v2[j] }),
                min: if g.min + (j - m) / 10 <= g.v2.len() { g.min + (j - m) / 10 } else { g.v2.len() as int },
                pairs: g.pairs.push((dt as i64, g.v2[j].spim_index, g.v2[j].spim_frame)),
                dt1: Some(dt as i16),
            }
        } else {
            g
        };
        assert(0 <= g1.min) by {
            if -G2_WINDOW < dt < G2_WINDOW && j >= m {
                assert((j - m) / 10 >= 0);
            }
        }
        if g1.min >= 0 && !(dt > G2_SPAN) {
            lemma_g2_scan_shape(t1, g1, m, j + 1);
        }
    }
}

/// Whether every time fits the signed arithmetic of the search.
pub open spec fn g2_times_fit(s: Seq<IsiEvent>) -> bool {
    forall|i: int| 0 <= i < s.len() ==> #[trigger] s[i].time <= i64::MAX
}

/// Hands the time differences of the second-channel list back to the
/// events of that channel, in order.
pub open spec fn g2_apply(out: Seq<IsiEvent>, v2: Seq<IsiEvent>, ch2: u32) -> Seq<IsiEvent>
    decreases out.len(),
{
    if out.len() == 0 {
        Seq::empty()
    } else if out[0].channel == ch2 && v2.len() > 0 {
        seq![IsiEvent { dt: v2[0].dt, ..out[0] }] + g2_apply(out.drop_first(), v2.drop_first(), ch2)
    } else {
        seq![out[0]] + g2_apply(out.drop_first(), v2, ch2)
    }
}

impl IsiList {
    /// Searches coincidences between photons of channels `ch1` and `ch2`:
    /// pairs closer than 5000 ticks give their time difference to both
    /// events and to the returned list, with the scan pixel and frame of the
    /// second. The cursor into the second channel never passes its end.
    pub fn search_coincidence(&mut self, ch1: u32, ch2: u32) -> (r: Vec<(i64, Option<u32>, Option<u32>)>)
        requires
            g2_times_fit(old(self).data_raw@),
        ensures
            ({
                let v2 = channel_events(old(self).data_raw@, ch2);
                let (out, g) = g2_fold(old(self).data_raw@, ch1, v2, old(self).data_raw@.len() as int);
                &&& r@ == g.pairs
                &&& final(self).data_raw@ == g2_apply(out, g.v2, ch2)
            }),
            final(self).x == old(self).x && final(self).y == old(self).y && final(self).pixel_time == old(self).pixel_time,
    {
        let ghost s0 = self.data_raw@;
        let n = self.data_raw.len();
        let mut v2: Vec<IsiEvent> = Vec::new();
        let mut k: usize = 0;
        while k < n
            invariant
                n == s0.len(),
                self.data_raw@ == s0,
                k <= n,
                v2@ == s0.subrange(0, k as int).filter(|e: IsiEvent| e.channel == ch2),
                g2_times_fit(s0),
                forall|i: int| 0 <= i < v2@.len() ==> #[trigger] v2@[i].time <= i64::MAX,
            decreases n - k,
        {
            let e = self.data_raw[k];
            proof {
                assert(s0.subrange(0, k + 1) =~= s0.subrange(0, k as int).push(e));
                s0.subrange(0, k as int).lemma_filter_push(e, |e: IsiEvent| e.channel == ch2);
            }
            if e.channel == ch2 {
                v2.push(e);
            }
            k = k + 1;
        }
        assert(s0.subrange(0, n as int) =~= s0);
        let ghost v2_0 = v2@;
        proof {
            assert(v2_0 == channel_events(s0, ch2));
        }
        let mut min: usize = 0;
        let mut pairs: Vec<(i64, Option<u32>, Option<u32>)> = Vec::new();
        let mut out: Vec<IsiEvent> = Vec::new();
        let mut k: usize = 0;
        while k < n
            invariant
                n == s0.len(),
                self.data_raw@ == s0,
                g2_times_fit(s0),
                k <= n,
                v2@.len() == v2_0.len(),
                forall|i: int| 0 <= i < v2_0.len() ==> (#[trigger] v2@[i]).time == v2_0[i].time,
                forall|i: int| 0 <= i < v2_0.len() ==> #[trigger] v2_0[i].time <= i64::MAX,
                self.x == old(self).x && self.y == old(self).y && self.pixel_time == old(self).pixel_time,
                ({
                    let (o, g) = g2_fold(s0, ch1, v2_0, k as int);
                    &&& out@ == o
                    &&& v2@ == g.v2
                    &&& min == g.min
                    &&& pairs@ == g.pairs
                }),
                min <= v2@.len(),
            decreases n - k,
        {
            let e = self.data_raw[k];
            if e.channel == ch1 {
                let t1 = e.time as i64;
                let m = min;
                let ghost start = (G2State { v2: v2@, min: min as int, pairs: pairs@, dt1: None });
                let mut dt1: Option<i16> = None;
                let mut j = m;
                let mut stop = false;
                proof {
                    lemma_g2_scan_shape(e.time as int, start, m as int, m as int);
                }
                while j < v2.len() && !stop
                    invariant
                        m <= j <= v2@.len(),
                        min <= v2@.len(),
                        v2@.len() == v2_0.len(),
                        t1 == e.time,
                        t1 >= 0,
                        forall|i: int| 0 <= i < v2_0.len() ==> (#[trigger] v2@[i]).time == v2_0[i].time,
                        forall|i: int| 0 <= i < v2_0.len() ==> #[trigger] v2_0[i].time <= i64::MAX,
                        stop ==> (G2State { v2: v2@, min: min as int, pairs: pairs@, dt1 }) == g2_scan(e.time as int, start, m as int, m as int),
                        !stop ==> g2_scan(e.time as int, (G2State { v2: v2@, min: min as int, pairs: pairs@, dt1 }), m as int, j as int)
                            == g2_scan(e.time as int, start, m as int, m as int),
                    decreases v2@.len() - j + (if stop { 0int } else { 1 }),
                {
                    let p = v2[j];
                    let dt: i64 = p.time as i64 - t1;
                    if -G2_WINDOW < dt && dt < G2_WINDOW {
                        v2.set(j, IsiEvent { dt: Some(dt as i16), ..p });
                        let add = (j - m) / 10;
                        min = if add <= v2.len() - min { min + add } else { v2.len() };
                        pairs.push((dt, p.spim_index, p.spim_frame));
                        dt1 = Some(dt as i16);
                    }
                    if dt > G2_SPAN {
                        stop = true;
                    } else {
                        j = j + 1;
                    }
                }
                proof {
                    lemma_g2_scan_shape(e.time as int, start, m as int, m as int);
                }
                let e1 = match dt1 {
                    Some(d) => IsiEvent { dt: Some(d), ..e },
                    None => e,
                };
                out.push(e1);
            } else {
                out.push(e);
            }
            k = k + 1;
        }
        let ghost outs = out@;
        let ghost v2f = v2@;
        let mut fixed: Vec<IsiEvent> = Vec::new();
        let mut c: usize = 0;
        let mut i: usize = 0;
        assert(outs.subrange(0, outs.len() as int) =~= outs);
        assert(v2f.subrange(0, v2f.len() as int) =~= v2f);
        assert(fixed@ + g2_apply(outs, v2f, ch2) =~= g2_apply(outs, v2f, ch2));
        while i < out.len()
            invariant
                i <= out@.len(),
                out@ == outs,
                v2@ == v2f,
                c <= v2f.len(),
                fixed@ + g2_apply(outs.subrange(i as int, outs.len() as int), v2f.subrange(c as int, v2f.len() as int), ch2)
                    == g2_apply(outs, v2f, ch2),
            decreases out@.len() - i,
        {
            let ghost rest = outs.subrange(i as int, outs.len() as int);
            let ghost rv = v2f.subrange(c as int, v2f.len() as int);
            assert(rest.drop_first() =~= outs.subrange(i + 1, outs.len() as int));
            let e = out[i];
            if e.channel == ch2 && c < v2.len() {
                assert(rv.drop_first() =~= v2f.subrange(c + 1, v2f.len() as int));
                fixed.push(IsiEvent { dt: v2[c].dt, ..e });
                c = c + 1;
            } else {
                fixed.push(e);
            }
            i = i + 1;
            assert(fixed@ + g2_apply(outs.subrange(i as int, outs.len() as int), v2f.subrange(c as int, v2f.len() as int), ch2)
                =~= g2_apply(outs, v2f, ch2));
        }
        assert(outs.subrange(0, outs.len() as int) =~= outs);
        assert(v2f.subrange(0, v2f.len() as int) =~= v2f);
        assert(g2_apply(Seq::<IsiEvent>::empty(), v2f.subrange(c as int, v2f.len() as int), ch2) =~= Seq::<IsiEvent>::empty());
        assert(fixed@ =~= g2_apply(outs, v2f, ch2));
        self.data_raw = fixed;
        pairs
    }
}

/// One TP3 wrap in fine ticks: 2^35 coarse periods of twelve.
pub const TP3_WRAP: u64 = 6 * TDC_OVERFLOW;

/// Where the pairing of TP3 and IsiBox lines stands after some TP3 packets:
/// the TP3 line reference, the sync, how many TP3 lines were skipped, the next
/// IsiBox line, whether the pairing stopped, and the bytes read.
pub struct IsiRun {
    pub tdc: PeriodicTdcRef,
    pub sync: SyncModel,
    pub skipped: int,
    pub next: int,
    pub stop: bool,
    pub read: int,
}

/// One TP3 packet `i` in the pairing. The first `jump` line edges are
/// skipped; each applied edge takes the next IsiBox line. The pairing stops
/// when the IsiBox lines run out, when a line cannot be paired, or when the
/// sync is lost.
pub open spec fn isi_step(r: IsiRun, d: Seq<u8>, i: int, lines: Seq<(usize, u64)>, jump: int) -> IsiRun {
    if r.stop {
        r
    } else {
        let r1 = IsiRun { read: 8 * (i + 1), ..r };
        match edge_at(d, i) {
            Some((k, t)) => if k != r.tdc.id {
                r1
            } else if r.skipped < jump {
                IsiRun { skipped: r.skipped + 1, ..r1 }
            } else {
                let (tdc2, applied) = periodic_upt(r.tdc, t);
                if !applied {
                    IsiRun { tdc: tdc2, ..r1 }
                } else if r.next >= lines.len() {
                    IsiRun { tdc: tdc2, stop: true, ..r1 }
                } else {
                    let idx = lines[r.next].0 as int;
                    let isi = lines[r.next].1;
                    let tv = tdc2.last_time * 6;
                    if idx < r.sync.start || idx >= r.sync.corr.len() || tv + TP3_WRAP > u64::MAX {
                        IsiRun { tdc: tdc2, next: r.next + 1, stop: true, ..r1 }
                    } else {
                        let s2 = line_edge_spec(r.sync, tv as u64, TP3_WRAP, idx, isi);
                        IsiRun { tdc: tdc2, next: r.next + 1, sync: s2, stop: s2.quit, ..r1 }
                    }
                }
            },
            None => r1,
        }
    }
}

/// The pairing after the first `n` TP3 packets.
pub open spec fn isi_fold(r: IsiRun, d: Seq<u8>, n: int, lines: Seq<(usize, u64)>, jump: int) -> IsiRun
    decreases n,
{
    if n <= 0 { r } else { isi_step(isi_fold(r, d, n - 1, lines, jump), d, n - 1, lines, jump) }
}

/// The IsiBox events as photon triggers in TP3 fine ticks from the first line.
pub open spec fn photons_of(s: Seq<IsiEvent>) -> Seq<Photon> {
    Seq::new(s.len(), |i: int| Photon {
        time: (tp3_tick(s[i].time) - tp3_tick(first_line(s).unwrap())) as u64,
        channel: s[i].channel as u8,
        g2: s[i].dt,
    })
}

/// Whether the IsiBox events cannot be put in TP3 ticks: no line, or an event
/// before the first line.
pub open spec fn no_timelist(s: Seq<IsiEvent>) -> bool {
    first_line(s) is None || exists|i: int| 0 <= i < s.len() && tp3_tick(#[trigger] s[i].time) < tp3_tick(first_line(s).unwrap())
}

/// Photons with their offsets added.
pub open spec fn corrected(ps: Seq<Photon>, corr: Seq<Option<u64>>) -> Seq<Photon> {
    Seq::new(ps.len(), |i: int| if i < corr.len() && corr[i] is Some {
        Photon { time: (ps[i].time + corr[i].unwrap()) as u64, ..ps[i] }
    } else {
        ps[i]
    })
}

/// Whether every offset can be added without overflow.
pub open spec fn offsets_fit(ps: Seq<Photon>, corr: Seq<Option<u64>>) -> bool {
    forall|i: int| 0 <= i < ps.len() && i < corr.len() ==> (#[trigger] corr[i] matches Some(c) ==> ps[i].time + c <= u64::MAX)
}

/// The pairing over a whole TP3 buffer.
pub open spec fn isi_run(tp3: Seq<u8>, s: Seq<IsiEvent>, tdc: PeriodicTdcRef, jump: int) -> IsiRun {
    let ps = photons_of(s);
    let start = IsiRun {
        tdc,
        sync: SyncModel { offset: 0, quit: false, corr: Seq::new(ps.len(), |i: int| None::<u64>), start: 0 },
        skipped: 0,
        next: 0,
        stop: false,
        read: 0,
    };
    isi_fold(start, tp3, (tp3.len() / 8) as int, sync_points(ps, ps.len() as int), jump)
}

/// What aligning the IsiBox clock to the TP3 lines gives: the corrected
/// photons and the TP3 bytes read, or `IsiBoxCouldNotSync` when the IsiBox
/// events have no usable line, when less than half of the TP3 buffer was read
/// before the pairing stopped, or when an offset does not fit.
pub open spec fn isi_sync_result(tp3: Seq<u8>, s: Seq<IsiEvent>, tdc: PeriodicTdcRef, jump: int) -> Result<(Seq<Photon>, int), Tp3ErrorKind> {
    if no_timelist(s) {
        Err(Tp3ErrorKind::IsiBoxCouldNotSync)
    } else {
        let run = isi_run(tp3, s, tdc, jump);
        let total = if tp3.len() > 0 { tp3.len() as int } else { 1 };
        if run.read * 100 < 50 * total || !offsets_fit(photons_of(s), run.sync.corr) {
            Err(Tp3ErrorKind::IsiBoxCouldNotSync)
        } else {
            Ok((corrected(photons_of(s), run.sync.corr), run.read))
        }
    }
}

/// Whether a result matches its plain-value form: the same error, or the
/// same photons, sorted by time with the photon-only list beside them, and
/// the same number of bytes read.
pub open spec fn result_is(r: Result<(TempTdcData, usize), Tp3ErrorKind>, v: Result<(Seq<Photon>, int), Tp3ErrorKind>) -> bool {
    match r {
        Ok((t, n)) => match v {
            Ok((q, m)) => {
                &&& n == m
                &&& t.tdc@.to_multiset() == q.to_multiset()
                &&& sorted_by(t.tdc@, |a: Photon, b: Photon| a.time <= b.time)
                &&& t.clean_tdc@ == t.tdc@.filter(|p: Photon| is_photon(p))
                &&& t.min_index == 0
            },
            Err(_) => false,
        },
        Err(e) => v == Err::<(Seq<Photon>, int), Tp3ErrorKind>(e),
    }
}

/// Aligns the IsiBox clock to the TP3 scan lines: each TP3 line edge after
/// the first `jump` is paired with the next IsiBox line, and the offset
/// between them is spread over the IsiBox events; see `isi_sync_result`. The
/// corrected triggers come back sorted by time, ready for the coincidence
/// search. A TP3 line edge lost by the detector is not detected: the edges are
/// paired with the IsiBox lines one for one, so a lost edge shows as a jump of
/// the offset, which stops the pairing (and the caller may retry with a skip).
pub fn correct_coincidence_isi(tp3: &[u8], isi: &IsiList, spim_tdc: PeriodicTdcRef, jump: usize)
    -> (r: Result<(TempTdcData, usize), Tp3ErrorKind>)
    requires
        spim_tdc.wf(),
        forall|i: int| 0 <= i < isi.data_raw@.len() ==> #[trigger] isi.data_raw@[i].time <= u64::MAX / 7200,
    ensures
        result_is(r, isi_sync_result(tp3@, isi.data_raw@, spim_tdc, jump as int)),
{
    let ghost s = isi.data_raw@;
    let mut photons = match timelist_with_tp3_tick(&isi.data_raw) {
        Some(p) => p,
        None => return Err(Tp3ErrorKind::IsiBoxCouldNotSync),
    };
    assert(photons@ =~= photons_of(s));
    let lines = line_triggers(&photons);
    let mut sync = IsiSync { offset: 0, quit: false, correct: IsiBoxCorrectVector::new(photons.len()) };
    let mut tdc = spim_tdc;
    let mut skipped: usize = 0;
    let mut next: usize = 0;
    let mut stop = false;
    let mut read: usize = 0;
    let ghost start = IsiRun { tdc: spim_tdc, sync: sync@, skipped: 0, next: 0, stop: false, read: 0 };
    let n = tp3.len() / 8;
    let mut i: usize = 0;
    while i < n && !stop
        invariant
            n == tp3@.len() / 8,
            i <= n,
            tdc.wf(),
            lines@ == sync_points(photons_of(s), photons_of(s).len() as int),
            sync.correct.corr@.len() == photons@.len(),
            start == (IsiRun {
                tdc: spim_tdc,
                sync: SyncModel { offset: 0, quit: false, corr: Seq::new(photons_of(s).len(), |i: int| None::<u64>), start: 0 },
                skipped: 0, next: 0, stop: false, read: 0,
            }),
            read <= 8 * i,
            skipped <= i,
            next <= i,
            isi_fold(start, tp3@, i as int, lines@, jump as int) == (IsiRun {
                tdc, sync: sync@, skipped: skipped as int, next: next as int, stop, read: read as int,
            }),
            stop ==> isi_fold(start, tp3@, n as int, lines@, jump as int) == isi_fold(start, tp3@, i as int, lines@, jump as int),
        decreases n - i,
    {
        let len = tp3.len();
        assert(8 * i + 8 <= len) by (nonlinear_arith)
            requires
                i < n,
                n == len / 8,
        ;
        read = 8 * (i + 1);
        if let Some((k, t)) = read_edge(tp3, i) {
            if k == tdc.id {
                if skipped < jump {
                    skipped = skipped + 1;
                } else {
                    let applied = tdc.upt(t);
                    if applied {
                        if next >= lines.len() {
                            stop = true;
                        } else {
                            let (idx, isi_time) = lines[next];
                            next = next + 1;
                            let tv = tdc.last_time.checked_mul(6);
                            let ok = match tv {
                                Some(v) => v.checked_add(TP3_WRAP).is_some(),
                                None => false,
                            };
                            if idx < sync.correct.start || idx >= sync.correct.corr.len() || !ok {
                                stop = true;
                            } else {
                                let v = tdc.last_time * 6;
                                sync.line_edge(v, TP3_WRAP, idx, isi_time);
                                stop = sync.quit;
                            }
                        }
                    }
                }
            }
        }
        i = i + 1;
        proof {
            if stop {
                lemma_isi_stopped(start, tp3@, i as int, n as int, lines@, jump as int);
            }
        }
    }
    proof {
        if !stop {
            assert(i == n);
        }
    }
    let total: usize = if tp3.len() > 0 { tp3.len() } else { 1 };
    assert(read as int * 100 <= 8 * n * 100);
    if (read as u128) * 100 < 50 * (total as u128) {
        return Err(Tp3ErrorKind::IsiBoxCouldNotSync);
    }
    let mut fits = true;
    let mut j: usize = 0;
    while j < photons.len()
        invariant
            j <= photons@.len(),
            sync.correct.corr@.len() == photons@.len(),
            fits == (forall|q: int| 0 <= q < j ==> (#[trigger] sync.correct.corr@[q] matches Some(c) ==> photons@[q].time + c <= u64::MAX)),
        decreases photons@.len() - j,
    {
        if let Some(c) = sync.correct.corr[j] {
            if photons[j].time.checked_add(c).is_none() {
                fits = false;
            }
        }
        j = j + 1;
    }
    let ghost corr = sync.correct.corr@;
    let ghost ps = photons@;
    if !fits {
        return Err(Tp3ErrorKind::IsiBoxCouldNotSync);
    }
    correct_tdc(&mut photons, &mut sync.correct);
    assert(photons@ =~= corrected(ps, corr));
    let ghost q = photons@;
    let mut t = TempTdcData { tdc: photons, clean_tdc: Vec::new(), min_index: 0 };
    t.sort();
    Ok((t, read))
}

proof fn lemma_isi_stopped(r: IsiRun, d: Seq<u8>, i: int, n: int, lines: Seq<(usize, u64)>, jump: int)
    requires
        0 <= i <= n,
        isi_fold(r, d, i, lines, jump).stop,
    ensures
        isi_fold(r, d, n, lines, jump) == isi_fold(r, d, i, lines, jump),
    decreases n - i,
{
    if i < n {
        lemma_isi_stopped(r, d, i, n - 1, lines, jump);
    }
}

/// Aligns the clocks with no TP3 line skipped, and when that fails, once more
/// with the first TP3 line skipped.
pub fn sync_with_retry(tp3: &[u8], isi: &IsiList, spim_tdc: PeriodicTdcRef) -> (r: Result<(TempTdcData, usize), Tp3ErrorKind>)
    requires
        spim_tdc.wf(),
        forall|i: int| 0 <= i < isi.data_raw@.len() ==> #[trigger] isi.data_raw@[i].time <= u64::MAX / 7200,
    ensures
        result_is(r, if isi_sync_result(tp3@, isi.data_raw@, spim_tdc, 0) is Ok {
            isi_sync_result(tp3@, isi.data_raw@, spim_tdc, 0)
        } else {
            isi_sync_result(tp3@, isi.data_raw@, spim_tdc, 1)
        }),
{
    match correct_coincidence_isi(tp3, isi, spim_tdc, 0) {
        Ok(r) => Ok(r),
        Err(_) => correct_coincidence_isi(tp3, isi, spim_tdc, 1),
    }
}

} // verus!
